use tezedge_debugger::read_u16_be;
use tezedge_debugger::utility::decrypter::{P2pDecrypter, ParseOutcome, ParseStep};

fn frame(content: &[u8]) -> Vec<u8> {
    let mut f = vec![(content.len() / 256) as u8, (content.len() % 256) as u8];
    f.extend_from_slice(content);
    f
}

#[test]
fn read_u16_be_is_big_endian() {
    assert_eq!(read_u16_be(&[0x01, 0x02]), 0x0102);
    assert_eq!(read_u16_be(&[0xff, 0x00, 0x07]), 0xff00);
}

#[test]
fn new_decrypter_is_empty() {
    let d = P2pDecrypter::new(vec![9; 32], vec![0; 24]);
    assert_eq!(d.precomputed_key(), &[9u8; 32][..]);
    assert_eq!(d.nonce_fetch(), vec![0u8; 24]);
    assert!(d.expects_metadata());
    assert!(d.incoming().is_empty());
    assert!(d.decoder_input().is_empty());
    assert_eq!(d.input_remaining(), 0);
    assert_eq!(d.pending_frame(), None);
}

#[test]
fn nonce_increment_carries() {
    let mut n = vec![0u8; 24];
    n[23] = 0xff;
    n[22] = 0xff;
    n[21] = 0x05;
    let mut d = P2pDecrypter::new(vec![], n);
    d.nonce_increment();
    let mut expected = vec![0u8; 24];
    expected[21] = 0x06;
    assert_eq!(d.nonce_fetch(), expected);
}

#[test]
fn nonce_increment_simple_and_wrap() {
    let mut d = P2pDecrypter::new(vec![], vec![0u8; 24]);
    d.nonce_increment();
    let mut one = vec![0u8; 24];
    one[23] = 1;
    assert_eq!(d.nonce_fetch(), one);

    let mut w = P2pDecrypter::new(vec![], vec![0xffu8; 24]);
    w.nonce_increment();
    assert_eq!(w.nonce_fetch(), vec![0u8; 24]);
}

#[test]
fn nonce_fetch_increment_returns_old() {
    let mut d = P2pDecrypter::new(vec![], vec![7u8; 24]);
    let old = d.nonce_fetch_increment();
    assert_eq!(old, vec![7u8; 24]);
    let mut next = vec![7u8; 24];
    next[23] = 8;
    assert_eq!(d.nonce_fetch(), next);
}

#[test]
fn frame_needs_more_than_prefix() {
    let mut d = P2pDecrypter::new(vec![], vec![0; 24]);
    d.extend_incoming(&[0, 0]);
    // a bare prefix, even of an empty frame, is not taken
    assert_eq!(d.pending_frame(), None);
    d.extend_incoming(&[0, 3, 1, 2]);
    // the first frame announces no bytes and is complete now
    assert_eq!(d.pending_frame(), Some(vec![0, 0]));
}

#[test]
fn incomplete_frame_is_not_taken() {
    let mut d = P2pDecrypter::new(vec![], vec![0; 24]);
    d.extend_incoming(&[0, 5, 1, 2, 3]);
    assert_eq!(d.pending_frame(), None);
    d.extend_incoming(&[4]);
    assert_eq!(d.pending_frame(), None);
    d.extend_incoming(&[5, 9]);
    assert_eq!(d.pending_frame(), Some(vec![0, 5, 1, 2, 3, 4, 5]));
}

#[test]
fn frames_roundtrip_in_order() {
    let mut d = P2pDecrypter::new(vec![], vec![0; 24]);
    let first: Vec<u8> = (0..300u32).map(|i| (i % 251) as u8).collect();
    let second = vec![42u8, 43];
    let mut stream = frame(&first);
    stream.extend(frame(&second));
    d.extend_incoming(&stream[..100]);
    assert_eq!(d.pending_frame(), None);
    d.extend_incoming(&stream[100..]);
    assert_eq!(d.pending_frame(), Some(frame(&first)));
    assert_eq!(d.take_frame(), first);
    assert_eq!(d.incoming(), &frame(&second)[..]);
    assert_eq!(d.pending_frame(), Some(frame(&second)));
    assert_eq!(d.take_frame(), second);
    assert!(d.incoming().is_empty());
}

#[test]
fn decrypted_plaintext_accumulates() {
    let mut d = P2pDecrypter::new(vec![], vec![0; 24]);
    assert!(d.on_decrypted(vec![1, 2, 3]));
    assert_eq!(d.decoder_input(), &[1, 2, 3]);
    let mut one = vec![0u8; 24];
    one[23] = 1;
    assert_eq!(d.nonce_fetch(), one);
}

#[test]
fn metadata_message_is_decoded_first() {
    let mut d = P2pDecrypter::new(vec![], vec![0; 24]);
    assert!(d.on_decrypted(vec![1, 2, 3]));
    assert_eq!(d.apply_parse_outcome(ParseOutcome::Decoded { message_count: 1 }), ParseStep::Deliver);
    assert!(!d.expects_metadata());
    assert!(d.decoder_input().is_empty());
}

#[test]
fn empty_peer_response_is_not_delivered() {
    let mut d = P2pDecrypter::new(vec![], vec![0; 24]);
    d.on_decrypted(vec![1]);
    d.apply_parse_outcome(ParseOutcome::Decoded { message_count: 1 });
    assert!(d.on_decrypted(vec![4, 5]));
    assert_eq!(d.apply_parse_outcome(ParseOutcome::Decoded { message_count: 0 }), ParseStep::NoMessages);
    assert!(d.decoder_input().is_empty());
    assert!(d.on_decrypted(vec![6]));
    assert_eq!(d.apply_parse_outcome(ParseOutcome::Decoded { message_count: 2 }), ParseStep::Deliver);
}

#[test]
fn underflow_waits_for_missing_bytes() {
    let mut d = P2pDecrypter::new(vec![], vec![0; 24]);
    assert!(d.on_decrypted(vec![1, 2]));
    assert_eq!(d.apply_parse_outcome(ParseOutcome::Underflow { bytes: 5 }), ParseStep::AwaitMore);
    assert_eq!(d.input_remaining(), 5);
    assert!(!d.on_decrypted(vec![3, 4, 5]));
    assert_eq!(d.input_remaining(), 2);
    assert!(d.on_decrypted(vec![6, 7, 8]));
    assert_eq!(d.input_remaining(), 0);
    assert_eq!(d.decoder_input(), &[1, 2, 3, 4, 5, 6, 7, 8]);
}

#[test]
fn overflow_cuts_surplus() {
    let mut d = P2pDecrypter::new(vec![], vec![0; 24]);
    d.on_decrypted(vec![1, 2, 3, 4, 5]);
    assert_eq!(d.apply_parse_outcome(ParseOutcome::Overflow { bytes: 2 }), ParseStep::Retry);
    assert_eq!(d.decoder_input(), &[1, 2, 3]);
    assert!(d.expects_metadata());
}

#[test]
fn failed_decode_changes_nothing() {
    let mut d = P2pDecrypter::new(vec![], vec![0; 24]);
    d.on_decrypted(vec![1, 2]);
    assert_eq!(d.apply_parse_outcome(ParseOutcome::Failed), ParseStep::Rejected);
    assert_eq!(d.decoder_input(), &[1, 2]);
    assert!(d.expects_metadata());
    assert_eq!(d.input_remaining(), 0);
}

#[test]
fn nonce_advances_once_per_decrypted_frame() {
    let mut d = P2pDecrypter::new(vec![], vec![0u8; 24]);
    d.extend_incoming(&frame(&[1, 2, 3]));
    assert!(d.pending_frame().is_some());
    // a frame that is taken but not decrypted leaves the nonce alone
    d.take_frame();
    assert_eq!(d.nonce_fetch(), vec![0u8; 24]);
    d.on_decrypted(vec![1]);
    d.on_decrypted(vec![2]);
    let mut two = vec![0u8; 24];
    two[23] = 2;
    assert_eq!(d.nonce_fetch(), two);
}

#[test]
fn overflow_retry_matches_cut_input() {
    let mut a = P2pDecrypter::new(vec![], vec![0u8; 24]);
    a.on_decrypted(vec![1, 2]);
    a.apply_parse_outcome(ParseOutcome::Underflow { bytes: 3 });
    assert!(a.on_decrypted(vec![3, 4, 5, 6]));
    assert_eq!(a.apply_parse_outcome(ParseOutcome::Overflow { bytes: 1 }), ParseStep::Retry);

    let mut b = P2pDecrypter::new(vec![], vec![0u8; 24]);
    b.on_decrypted(vec![1, 2, 3, 4, 5]);
    b.on_decrypted(vec![]);
    assert_eq!(a.decoder_input(), b.decoder_input());
    assert_eq!(a.input_remaining(), b.input_remaining());
    assert_eq!(a.apply_parse_outcome(ParseOutcome::Decoded { message_count: 1 }),
               b.apply_parse_outcome(ParseOutcome::Decoded { message_count: 1 }));
}
