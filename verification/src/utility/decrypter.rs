//! Reassembly of an encrypted peer-to-peer stream.
//!
//! Captured payloads are appended to an incoming buffer. Each frame on the
//! wire is a two-byte big-endian length followed by that many bytes of
//! ciphertext. A complete frame is handed out for decryption; each
//! successfully decrypted frame advances the 24-byte nonce by one and its
//! plaintext is accumulated until the decoder has as many bytes as it asked
//! for. The first decoded message of a stream is the metadata message, all
//! later ones are peer messages.
use vstd::prelude::*;
use crate::wire::{be_u16, read_u16_be};

verus! {

/// Number of bytes of the length prefix in front of every frame.
pub const CONTENT_LENGTH_FIELD_BYTES: usize = 2;

/// The nonce that follows `n`: `n` read as a big-endian number, plus one,
/// wrapping to all zeros past the largest value of its length.
pub open spec fn nonce_successor(n: Seq<u8>) -> Seq<u8>
    decreases n.len(),
{
    if n.len() == 0 {
        n
    } else if n.last() == 255u8 {
        nonce_successor(n.drop_last()).push(0u8)
    } else {
        n.drop_last().push((n.last() + 1) as u8)
    }
}

/// A byte string read as a big-endian natural number.
pub open spec fn be_value(n: Seq<u8>) -> nat
    decreases n.len(),
{
    if n.len() == 0 {
        0
    } else {
        be_value(n.drop_last()) * 256 + (n.last() as nat)
    }
}

/// `256` to the power `k`.
pub open spec fn byte_radix_pow(k: nat) -> nat
    decreases k,
{
    if k == 0 {
        1
    } else {
        256 * byte_radix_pow((k - 1) as nat)
    }
}

/// `n` advanced `k` times to its successor.
pub open spec fn nonce_after(n: Seq<u8>, k: nat) -> Seq<u8>
    decreases k,
{
    if k == 0 {
        n
    } else {
        nonce_successor(nonce_after(n, (k - 1) as nat))
    }
}

/// Length of the ciphertext announced by the prefix of `buf`.
pub open spec fn announced_len(buf: Seq<u8>) -> nat
    recommends
        buf.len() >= 2,
{
    be_u16(buf[0], buf[1])
}

/// Whether `buf` holds more than the length prefix and at least one whole
/// frame: the prefix and the ciphertext that it announces.
pub open spec fn has_complete_frame(buf: Seq<u8>) -> bool {
    &&& buf.len() > CONTENT_LENGTH_FIELD_BYTES
    &&& buf.len() - CONTENT_LENGTH_FIELD_BYTES >= announced_len(buf)
}

/// The first frame of `buf`, its length prefix included.
pub open spec fn first_frame(buf: Seq<u8>) -> Seq<u8> {
    buf.take(CONTENT_LENGTH_FIELD_BYTES + announced_len(buf))
}

/// The state after decrypted bytes `msg` were added to the decoder input:
/// the decoder input grows by `msg`, and the number of bytes still awaited
/// shrinks by its length, down to zero.
pub open spec fn absorb(decrypted: Seq<u8>, remaining: nat, msg: Seq<u8>) -> (Seq<u8>, nat) {
    (decrypted + msg, if remaining >= msg.len() { (remaining - msg.len()) as nat } else { 0 })
}

/// The frame that carries `content`: its length as two big-endian bytes,
/// then the content.
pub open spec fn encode_frame(content: Seq<u8>) -> Seq<u8> {
    seq![(content.len() / 256) as u8, (content.len() % 256) as u8] + content
}

/// Successor law: the successor of a nonce has the same length, and as a
/// big-endian number it is the nonce plus one, modulo 256 to the power of
/// the length.
pub proof fn lemma_nonce_successor_value(n: Seq<u8>)
    ensures
        nonce_successor(n).len() == n.len(),
        be_value(nonce_successor(n)) == (be_value(n) + 1) % byte_radix_pow(n.len()),
    decreases n.len(),
{
    if n.len() == 0 {
    } else {
        let p = n.drop_last();
        lemma_nonce_successor_value(p);
        lemma_be_value_bound(p);
        let k: int = byte_radix_pow(p.len()) as int;
        assert(byte_radix_pow(n.len()) == 256 * k);
        assert(nonce_successor(n).drop_last() =~= if n.last() == 255u8 { nonce_successor(p) } else { p });
        if n.last() == 255u8 {
            let v: int = be_value(p) as int;
            assert(be_value(nonce_successor(n)) == be_value(nonce_successor(p)) * 256);
            if v + 1 == k {
                assert((v + 1) % k == 0) by (nonlinear_arith)
                    requires v + 1 == k, k > 0;
                assert(be_value(n) + 1 == 256 * k) by (nonlinear_arith)
                    requires be_value(n) == v * 256 + 255, v + 1 == k;
                assert((256 * k) % (256 * k) == 0) by (nonlinear_arith)
                    requires k > 0;
            } else {
                assert((v + 1) % k == v + 1) by (nonlinear_arith)
                    requires v + 1 < k, 0 <= v;
                assert(be_value(n) + 1 == (v + 1) * 256) by (nonlinear_arith)
                    requires be_value(n) == v * 256 + 255;
                assert(((v + 1) * 256) % (256 * k) == (v + 1) * 256) by (nonlinear_arith)
                    requires v + 1 < k, 0 <= v;
            }
        } else {
            let v: int = be_value(p) as int;
            let last: int = n.last() as int;
            assert(be_value(nonce_successor(n)) == v * 256 + last + 1);
            assert(v * 256 + last + 1 < 256 * k) by (nonlinear_arith)
                requires v < k, last < 255;
            assert((v * 256 + last + 1) % (256 * k) == v * 256 + last + 1) by (nonlinear_arith)
                requires v * 256 + last + 1 < 256 * k, 0 <= v, 0 <= last;
        }
    }
}

/// A big-endian number of `n.len()` bytes is below 256 to the power of
/// that length.
pub proof fn lemma_be_value_bound(n: Seq<u8>)
    ensures
        be_value(n) < byte_radix_pow(n.len()),
        byte_radix_pow(n.len()) > 0,
    decreases n.len(),
{
    if n.len() > 0 {
        let p = n.drop_last();
        lemma_be_value_bound(p);
        let v: int = be_value(p) as int;
        let k: int = byte_radix_pow(p.len()) as int;
        let last: int = n.last() as int;
        assert(v * 256 + last < 256 * k) by (nonlinear_arith)
            requires v < k, last < 256;
    }
}

/// Framing law: a stream that starts with the frame of `content` (at most
/// 65535 bytes) followed by anything else yields exactly that frame, and
/// taking it leaves the rest; provided the stream is longer than a bare
/// length prefix.
pub proof fn lemma_frame_roundtrip(content: Seq<u8>, rest: Seq<u8>)
    requires
        content.len() <= 65535,
        content.len() + rest.len() > 0,
    ensures
        has_complete_frame(encode_frame(content) + rest),
        first_frame(encode_frame(content) + rest) == encode_frame(content),
        first_frame(encode_frame(content) + rest).skip(CONTENT_LENGTH_FIELD_BYTES as int) == content,
        (encode_frame(content) + rest).skip(encode_frame(content).len() as int) == rest,
{
    let buf = encode_frame(content) + rest;
    let l = content.len();
    assert(buf[0] == (l / 256) as u8);
    assert(buf[1] == (l % 256) as u8);
    assert(announced_len(buf) == l);
    assert(first_frame(buf) =~= encode_frame(content));
    assert(encode_frame(content).skip(2) =~= content);
    assert(buf.skip(encode_frame(content).len() as int) =~= rest);
}

/// Every frame handed out announces exactly the length of its content, so
/// the frame and what follows it make up the incoming buffer.
pub proof fn lemma_frame_is_well_formed(buf: Seq<u8>)
    requires
        has_complete_frame(buf),
    ensures
        first_frame(buf).len() == CONTENT_LENGTH_FIELD_BYTES + announced_len(buf),
        announced_len(first_frame(buf)) == first_frame(buf).len() - CONTENT_LENGTH_FIELD_BYTES,
        first_frame(buf) + buf.skip(first_frame(buf).len() as int) == buf,
{
    assert(first_frame(buf) + buf.skip(first_frame(buf).len() as int) =~= buf);
}

/// Accumulation law: absorbing `a` and then `b` gives the same decoder
/// input and the same count of awaited bytes as absorbing `a + b` at once,
/// so how plaintext is split across frames does not matter.
pub proof fn lemma_absorb_split(decrypted: Seq<u8>, remaining: nat, a: Seq<u8>, b: Seq<u8>)
    ensures
        ({
            let (d1, r1) = absorb(decrypted, remaining, a);
            absorb(d1, r1, b)
        }) == absorb(decrypted, remaining, a + b),
{
    assert(decrypted + a + b =~= decrypted + (a + b));
}

/// Waiting law: once `awaited` bytes are missing, absorbing plaintext
/// `msg` lets the decoder run again exactly when `msg` holds at least that
/// many bytes; otherwise the shortfall shrinks by the length of `msg`.
pub proof fn lemma_absorb_waits_for_missing_bytes(decrypted: Seq<u8>, awaited: nat, msg: Seq<u8>)
    ensures
        (absorb(decrypted, awaited, msg).1 == 0) == (msg.len() >= awaited),
        msg.len() < awaited ==> absorb(decrypted, awaited, msg).1 == awaited - msg.len(),
{
}

/// What the decoder made of the accumulated plaintext.
#[derive(Clone, Copy, Debug, PartialEq, Eq, Structural)]
pub enum ParseOutcome {
    /// A message was decoded; for a peer message response, `message_count`
    /// is the number of peer messages it carries.
    Decoded { message_count: usize },
    /// The input ends `bytes` bytes before the message does.
    Underflow { bytes: usize },
    /// The input holds `bytes` bytes more than the message.
    Overflow { bytes: usize },
    /// Any other decoding error.
    Failed,
}

/// What follows from a parse outcome.
#[derive(Clone, Copy, Debug, PartialEq, Eq, Structural)]
pub enum ParseStep {
    /// The decoded message(s) are handed out.
    Deliver,
    /// A peer message response without messages: nothing is handed out.
    NoMessages,
    /// More plaintext is needed; nothing is handed out yet.
    AwaitMore,
    /// The input was cut to its expected length; decode it again.
    Retry,
    /// The input could not be decoded; nothing is handed out.
    Rejected,
}

/// The abstract state of a decrypter.
pub struct DecrypterView {
    pub precomputed_key: Seq<u8>,
    pub nonce: Seq<u8>,
    /// The nonce the decrypter was created with.
    pub initial_nonce: Seq<u8>,
    /// How many times the nonce has advanced: once per decrypted frame.
    pub nonce_advances: nat,
    pub metadata: bool,
    pub incoming: Seq<u8>,
    pub decrypted: Seq<u8>,
    pub input_remaining: nat,
}

/// The nonce of `v` is its initial nonce advanced once per decrypted frame.
pub open spec fn nonce_counted(v: DecrypterView) -> bool {
    v.nonce == nonce_after(v.initial_nonce, v.nonce_advances)
}

/// The state and step that follow decoding outcome `o` in state `v`.
///
/// A decoded message empties the decoder input. The first one is the
/// metadata message and is always handed out; later peer message responses
/// are handed out when they carry at least one message. An underflow makes
/// the decrypter wait for the missing bytes; an overflow cuts the surplus
/// off the end of the input so that it is decoded again.
pub open spec fn parse_transition(v: DecrypterView, o: ParseOutcome) -> (DecrypterView, ParseStep) {
    match o {
        ParseOutcome::Decoded { message_count } => {
            let next = DecrypterView { decrypted: Seq::empty(), metadata: true, ..v };
            if !v.metadata || message_count > 0 {
                (next, ParseStep::Deliver)
            } else {
                (next, ParseStep::NoMessages)
            }
        },
        ParseOutcome::Underflow { bytes } => (
            DecrypterView { input_remaining: v.input_remaining + bytes as nat, ..v },
            ParseStep::AwaitMore,
        ),
        ParseOutcome::Overflow { bytes } => (
            DecrypterView { decrypted: v.decrypted.take(v.decrypted.len() - bytes), ..v },
            ParseStep::Retry,
        ),
        ParseOutcome::Failed => (v, ParseStep::Rejected),
    }
}

/// Handshake law: once the metadata message has been decoded, every later
/// decoding outcome leaves it decoded, so all further messages are decoded
/// as peer messages; and decoding outcomes never touch the key, the nonce or
/// the captured ciphertext.
pub proof fn lemma_metadata_stays_decoded(v: DecrypterView, o: ParseOutcome)
    ensures
        v.metadata ==> parse_transition(v, o).0.metadata,
        parse_transition(v, o).0.precomputed_key == v.precomputed_key,
        parse_transition(v, o).0.nonce == v.nonce,
        parse_transition(v, o).0.incoming == v.incoming,
{
}

/// Nonce-count law: a nonce advanced `k` times keeps its length and, as a
/// big-endian number, is the start plus `k` modulo 256 to the power of the
/// length; advancing once more is taking the successor. With
/// `nonce_counted`, which `new` establishes and every method keeps, the
/// nonce of a decrypter is its initial nonce advanced once per decrypted
/// frame, and only `on_decrypted` (and the nonce operations themselves)
/// count one more.
pub proof fn lemma_nonce_after_value(n: Seq<u8>, k: nat)
    ensures
        nonce_after(n, k).len() == n.len(),
        be_value(nonce_after(n, k)) == (be_value(n) + k) % byte_radix_pow(n.len()),
        nonce_after(n, k + 1) == nonce_successor(nonce_after(n, k)),
    decreases k,
{
    lemma_be_value_bound(n);
    let p: int = byte_radix_pow(n.len()) as int;
    let v: int = be_value(n) as int;
    if k == 0 {
        assert(v % p == v) by (nonlinear_arith)
            requires 0 <= v < p;
    } else {
        let prev = nonce_after(n, (k - 1) as nat);
        lemma_nonce_after_value(n, (k - 1) as nat);
        lemma_nonce_successor_value(prev);
        let m: int = (v + k - 1) % p;
        assert(be_value(nonce_after(n, k)) == (m + 1) % p);
        vstd::arithmetic::div_mod::lemma_add_mod_noop_right(1int, v + k - 1, p);
        assert((1 + (v + k - 1) % p) % p == (v + k) % p);
    }
}

/// Overflow retry law: when the decoder input, completed by plaintext
/// `msg` that covers every awaited byte, overflows by `n` bytes, the
/// decrypter ends up exactly as if it had been handed the input without its
/// last `n` bytes and nothing awaited: the same input is decoded again, and
/// whatever the decoder answers then leads to the same state and step.
pub proof fn lemma_overflow_retries_from_cut_input(v: DecrypterView, msg: Seq<u8>, n: usize, o: ParseOutcome)
    requires
        v.input_remaining <= msg.len(),
        1 <= n <= v.decrypted.len() + msg.len(),
    ensures
        ({
            let (buf, r) = absorb(v.decrypted, v.input_remaining, msg);
            let fed = DecrypterView { decrypted: buf, input_remaining: r, ..v };
            let cut = buf.take(buf.len() - n);
            let (buf2, r2) = absorb(cut, 0, Seq::empty());
            let fresh = DecrypterView { decrypted: buf2, input_remaining: r2, ..v };
            &&& r == 0
            &&& r2 == 0
            &&& parse_transition(fed, ParseOutcome::Overflow { bytes: n }) == (fresh, ParseStep::Retry)
            &&& parse_transition(parse_transition(fed, ParseOutcome::Overflow { bytes: n }).0, o)
                == parse_transition(fresh, o)
        }),
{
    let (buf, r) = absorb(v.decrypted, v.input_remaining, msg);
    let cut = buf.take(buf.len() - n);
    assert(cut + Seq::<u8>::empty() =~= cut);
}

/// Accumulation law: absorbing plaintext `msg` keeps the decoder input as
/// it was and appends `msg` after it byte for byte: nothing is dropped,
/// reordered or altered.
pub proof fn lemma_absorb_appends_unchanged(decrypted: Seq<u8>, remaining: nat, msg: Seq<u8>)
    ensures
        absorb(decrypted, remaining, msg).0.len() == decrypted.len() + msg.len(),
        forall|i: int| 0 <= i < decrypted.len() ==> absorb(decrypted, remaining, msg).0[i] == decrypted[i],
        forall|i: int| 0 <= i < msg.len() ==> absorb(decrypted, remaining, msg).0[decrypted.len() + i] == msg[i],
        remaining >= msg.len() ==> absorb(decrypted, remaining, msg).1 + msg.len() == remaining,
        remaining < msg.len() ==> absorb(decrypted, remaining, msg).1 == 0,
{
}

/// Delivery law: decoding a message always empties the decoder input, so the
/// next message is decoded from its own bytes, and marks the metadata
/// message as seen. The first message, the metadata message, is always
/// handed out; afterwards a peer message response is handed out exactly
/// when it carries at least one message, and skipped when it carries none.
/// Nothing else of the state changes.
pub proof fn lemma_decoded_delivers_nonempty_and_empties_input(v: DecrypterView, c: usize)
    ensures
            ({
                let (w, step) = parse_transition(v, ParseOutcome::Decoded { message_count: c });
                &&& w.decrypted.len() == 0
                &&& w.metadata
                &&& w.precomputed_key == v.precomputed_key
                &&& w.nonce == v.nonce
                &&& w.initial_nonce == v.initial_nonce
                &&& w.nonce_advances == v.nonce_advances
                &&& w.incoming == v.incoming
                &&& w.input_remaining == v.input_remaining
                &&& !v.metadata ==> step == ParseStep::Deliver
                &&& v.metadata && c > 0 ==> step == ParseStep::Deliver
                &&& v.metadata && c == 0 ==> step == ParseStep::NoMessages
            }),
{
}

/// Underflow law: an underflow of `n` bytes keeps the decoder input exactly
/// as it is, whether or not the metadata message has been seen, and only
/// raises the count of awaited bytes by `n`; the decrypter waits.
pub proof fn lemma_underflow_keeps_input(v: DecrypterView, n: usize)
    ensures
            ({
                let (w, step) = parse_transition(v, ParseOutcome::Underflow { bytes: n });
                &&& step == ParseStep::AwaitMore
                &&& w.decrypted == v.decrypted
                &&& w.input_remaining == v.input_remaining + n
                &&& w.metadata == v.metadata
                &&& w.precomputed_key == v.precomputed_key
                &&& w.nonce == v.nonce
                &&& w.initial_nonce == v.initial_nonce
                &&& w.nonce_advances == v.nonce_advances
                &&& w.incoming == v.incoming
            }),
{
}

/// Reassembly state of one direction of an encrypted peer connection.
pub struct P2pDecrypter {
    precomputed_key: Vec<u8>,
    nonce: Vec<u8>,
    initial_nonce: Ghost<Seq<u8>>,
    nonce_advances: Ghost<nat>,
    metadata: bool,
    inc_buf: Vec<u8>,
    dec_buf: Vec<u8>,
    input_remaining: usize,
}

impl View for P2pDecrypter {
    type V = DecrypterView;

    closed spec fn view(&self) -> DecrypterView {
        DecrypterView {
            precomputed_key: self.precomputed_key@,
            nonce: self.nonce@,
            initial_nonce: self.initial_nonce@,
            nonce_advances: self.nonce_advances@,
            metadata: self.metadata,
            incoming: self.inc_buf@,
            decrypted: self.dec_buf@,
            input_remaining: self.input_remaining as nat,
        }
    }
}

/// Replaces the big-endian number in `n` by its successor, wrapping to
/// zero past the largest value of its length.
fn increment_be(n: &mut Vec<u8>)
    ensures
        final(n)@ == nonce_successor(old(n)@),
{
    let ghost start = n@;
    let mut i: usize = n.len();
    assert(start.take(i as int) =~= start);
    assert(n@.skip(i as int) =~= Seq::<u8>::empty());
    while i > 0
        invariant
            start == old(n)@,
            i <= n@.len(),
            n@.len() == start.len(),
            n@.take(i as int) == start.take(i as int),
            nonce_successor(start) == nonce_successor(start.take(i as int)) + n@.skip(i as int),
        decreases i,
    {
        i = i - 1;
        let b: u8 = n[i];
        assert(start.take(i + 1).drop_last() =~= start.take(i as int));
        assert(start.take(i + 1)[i as int] == n@.take(i + 1)[i as int]);
        assert(start.take(i + 1).last() == b);
        let ghost before = n@;
        if b == 255u8 {
            n.set(i, 0u8);
            assert(n@.take(i as int) =~= before.take(i as int));
            assert(n@.skip(i as int) =~= seq![0u8] + before.skip(i + 1));
            assert(nonce_successor(start.take(i as int)).push(0u8) + before.skip(i + 1)
                =~= nonce_successor(start.take(i as int)) + n@.skip(i as int));
        } else {
            n.set(i, b + 1);
            assert(before.take(i as int) == start.take(i as int)) by {
                assert(before.take(i as int) =~= before.take(i + 1).take(i as int));
                assert(start.take(i as int) =~= start.take(i + 1).take(i as int));
            }
            assert(nonce_successor(start.take(i + 1)) == start.take(i as int).push((b + 1) as u8));
            assert(n@ =~= start.take(i as int).push((b + 1) as u8) + before.skip(i + 1));
            return;
        }
    }
    assert(start.take(0) =~= Seq::<u8>::empty());
    assert(n@.skip(0) =~= n@);
}

impl P2pDecrypter {
    /// A decrypter for a stream encrypted with `precomputed_key`, whose
    /// first frame uses `nonce`. Both buffers start empty, no bytes are
    /// awaited and the metadata message has not been seen yet.
    pub fn new(precomputed_key: Vec<u8>, nonce: Vec<u8>) -> (r: Self)
        ensures
            r@.precomputed_key == precomputed_key@,
            r@.nonce == nonce@,
            r@.initial_nonce == nonce@,
            r@.nonce_advances == 0,
            nonce_counted(r@),
            !r@.metadata,
            r@.incoming == Seq::<u8>::empty(),
            r@.decrypted == Seq::<u8>::empty(),
            r@.input_remaining == 0,
    {
        let ghost start = nonce@;
        P2pDecrypter {
            precomputed_key,
            nonce,
            initial_nonce: Ghost(start),
            nonce_advances: Ghost(0),
            metadata: false,
            inc_buf: Vec::new(),
            dec_buf: Vec::new(),
            input_remaining: 0,
        }
    }

    /// The key that frames are decrypted with.
    pub fn precomputed_key(&self) -> (r: &[u8])
        ensures
            r@ == self@.precomputed_key,
    {
        self.precomputed_key.as_slice()
    }

    /// Whether the next decoded message is the metadata message.
    pub fn expects_metadata(&self) -> (r: bool)
        ensures
            r == !self@.metadata,
    {
        !self.metadata
    }

    /// The plaintext accumulated for the decoder.
    pub fn decoder_input(&self) -> (r: &[u8])
        ensures
            r@ == self@.decrypted,
    {
        self.dec_buf.as_slice()
    }

    /// How many more plaintext bytes the decoder waits for.
    pub fn input_remaining(&self) -> (r: usize)
        ensures
            r == self@.input_remaining,
    {
        self.input_remaining
    }

    /// The captured ciphertext not yet taken as frames.
    pub fn incoming(&self) -> (r: &[u8])
        ensures
            r@ == self@.incoming,
    {
        self.inc_buf.as_slice()
    }

    /// The nonce for the next frame.
    pub fn nonce_fetch(&self) -> (r: Vec<u8>)
        ensures
            r@ == self@.nonce,
    {
        let mut r: Vec<u8> = Vec::new();
        let n: usize = self.nonce.len();
        for i in 0..n
            invariant
                n == self.nonce@.len(),
                r@ == self.nonce@.take(i as int),
        {
            r.push(self.nonce[i]);
            assert(r@ =~= self.nonce@.take(i + 1));
        }
        assert(r@ =~= self.nonce@);
        r
    }

    /// Advances the nonce to its successor; nothing else changes.
    pub fn nonce_increment(&mut self)
        ensures
            final(self)@ == (DecrypterView {
                nonce: nonce_successor(old(self)@.nonce),
                nonce_advances: old(self)@.nonce_advances + 1,
                ..old(self)@
            }),
            nonce_counted(old(self)@) ==> nonce_counted(final(self)@),
    {
        increment_be(&mut self.nonce);
        proof {
            self.nonce_advances@ = self.nonce_advances@ + 1;
        }
    }

    /// Appends captured ciphertext to the incoming buffer.
    pub fn extend_incoming(&mut self, payload: &[u8])
        ensures
            final(self)@ == (DecrypterView { incoming: old(self)@.incoming + payload@, ..old(self)@ }),
    {
        self.inc_buf.extend_from_slice(payload);
        assert(self.inc_buf@ =~= old(self).inc_buf@ + payload@);
    }

    /// The first whole frame of the incoming buffer, its length prefix
    /// included, when the buffer holds more than the prefix and at least
    /// the announced ciphertext; `None` otherwise. Nothing is consumed.
    pub fn pending_frame(&self) -> (r: Option<Vec<u8>>)
        ensures
            has_complete_frame(self@.incoming) ==> (r matches Some(f) && f@ == first_frame(self@.incoming)),
            !has_complete_frame(self@.incoming) ==> r is None,
    {
        if self.inc_buf.len() > CONTENT_LENGTH_FIELD_BYTES {
            let len = read_u16_be(self.inc_buf.as_slice()) as usize;
            if self.inc_buf.len() - CONTENT_LENGTH_FIELD_BYTES >= len {
                let end = len + CONTENT_LENGTH_FIELD_BYTES;
                let mut frame: Vec<u8> = Vec::new();
                for i in 0..end
                    invariant
                        end <= self.inc_buf@.len(),
                        frame@ == self.inc_buf@.take(i as int),
                {
                    frame.push(self.inc_buf[i]);
                    assert(frame@ =~= self.inc_buf@.take(i + 1));
                }
                return Some(frame);
            }
        }
        None
    }

    /// Removes the first frame from the incoming buffer and returns its
    /// ciphertext, the frame without its length prefix.
    pub fn take_frame(&mut self) -> (content: Vec<u8>)
        requires
            has_complete_frame(old(self)@.incoming),
        ensures
            content@ == first_frame(old(self)@.incoming).skip(CONTENT_LENGTH_FIELD_BYTES as int),
            final(self)@ == (DecrypterView {
                incoming: old(self)@.incoming.skip(first_frame(old(self)@.incoming).len() as int),
                ..old(self)@
            }),
    {
        let len = read_u16_be(self.inc_buf.as_slice()) as usize;
        let mut frame = self.inc_buf.split_off(len + CONTENT_LENGTH_FIELD_BYTES);
        std::mem::swap(&mut self.inc_buf, &mut frame);
        let content = frame.split_off(CONTENT_LENGTH_FIELD_BYTES);
        assert(content@ =~= first_frame(old(self)@.incoming).skip(CONTENT_LENGTH_FIELD_BYTES as int));
        assert(self.inc_buf@ =~= old(self)@.incoming.skip(first_frame(old(self)@.incoming).len() as int));
        content
    }

    /// Records a successfully decrypted frame: the nonce advances to its
    /// successor and the plaintext joins the decoder input, reducing the
    /// bytes still awaited. Returns whether the decoder should now run, that
    /// is whether no more bytes are awaited.
    pub fn on_decrypted(&mut self, plaintext: Vec<u8>) -> (decode_now: bool)
        ensures
            ({
                let (decrypted, remaining) = absorb(old(self)@.decrypted, old(self)@.input_remaining, plaintext@);
                final(self)@ == DecrypterView {
                    nonce: nonce_successor(old(self)@.nonce),
                    nonce_advances: old(self)@.nonce_advances + 1,
                    decrypted,
                    input_remaining: remaining,
                    ..old(self)@
                }
            }),
            decode_now == (final(self)@.input_remaining == 0),
            nonce_counted(old(self)@) ==> nonce_counted(final(self)@),
            final(self)@.decrypted.len() == old(self)@.decrypted.len() + plaintext@.len(),
            forall|i: int| 0 <= i < old(self)@.decrypted.len() ==> final(self)@.decrypted[i] == old(self)@.decrypted[i],
            forall|i: int| 0 <= i < plaintext@.len() ==> final(self)@.decrypted[old(self)@.decrypted.len() + i] == plaintext@[i],
    {
        proof {
            lemma_absorb_appends_unchanged(self.dec_buf@, self.input_remaining as nat, plaintext@);
        }
        self.nonce_increment();
        let mut plaintext = plaintext;
        self.input_remaining = self.input_remaining.saturating_sub(plaintext.len());
        self.dec_buf.append(&mut plaintext);
        self.input_remaining == 0
    }

    /// Applies what the decoder made of the decoder input; see
    /// `parse_transition`. The decoder only runs when no bytes are awaited,
    /// and an overflow never exceeds the input.
    pub fn apply_parse_outcome(&mut self, outcome: ParseOutcome) -> (step: ParseStep)
        requires
            old(self)@.input_remaining == 0,
            outcome matches ParseOutcome::Overflow { bytes } ==> bytes <= old(self)@.decrypted.len(),
        ensures
            (final(self)@, step) == parse_transition(old(self)@, outcome),
            outcome is Decoded ==> final(self)@.decrypted.len() == 0 && final(self)@.metadata,
            (outcome matches ParseOutcome::Decoded { message_count } && (!old(self)@.metadata || message_count > 0))
                ==> step == ParseStep::Deliver,
            (outcome matches ParseOutcome::Decoded { message_count } && old(self)@.metadata && message_count == 0)
                ==> step == ParseStep::NoMessages,
            outcome matches ParseOutcome::Underflow { bytes } ==> {
                &&& step == ParseStep::AwaitMore
                &&& final(self)@.decrypted == old(self)@.decrypted
                &&& final(self)@.input_remaining == bytes
            },
    {
        proof {
            match outcome {
                ParseOutcome::Decoded { message_count } =>
                    lemma_decoded_delivers_nonempty_and_empties_input(old(self)@, message_count),
                ParseOutcome::Underflow { bytes } => lemma_underflow_keeps_input(old(self)@, bytes),
                _ => {},
            }
        }
        match outcome {
            ParseOutcome::Decoded { message_count } => {
                self.dec_buf.clear();
                if !self.metadata {
                    self.metadata = true;
                    ParseStep::Deliver
                } else if message_count == 0 {
                    ParseStep::NoMessages
                } else {
                    ParseStep::Deliver
                }
            },
            ParseOutcome::Underflow { bytes } => {
                self.input_remaining = self.input_remaining + bytes;
                ParseStep::AwaitMore
            },
            ParseOutcome::Overflow { bytes } => {
                let keep = self.dec_buf.len() - bytes;
                self.dec_buf.truncate(keep);
                ParseStep::Retry
            },
            ParseOutcome::Failed => ParseStep::Rejected,
        }
    }

    /// Returns the nonce for the next frame and advances it to its successor.
    pub fn nonce_fetch_increment(&mut self) -> (r: Vec<u8>)
        ensures
            r@ == old(self)@.nonce,
            final(self)@ == (DecrypterView {
                nonce: nonce_successor(old(self)@.nonce),
                nonce_advances: old(self)@.nonce_advances + 1,
                ..old(self)@
            }),
            nonce_counted(old(self)@) ==> nonce_counted(final(self)@),
    {
        let r = self.nonce_fetch();
        self.nonce_increment();
        r
    }
}

} // verus!
