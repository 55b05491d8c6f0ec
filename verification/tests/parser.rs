use tezedge_debugger::system::p2p::parser::{identity_paths, Command, Parser, ProcessingConnectionResult};

#[test]
fn identity_paths_in_order() {
    let p = identity_paths("/home/alice");
    assert_eq!(p, vec![
        "/tmp/volume/identity.json".to_string(),
        "/tmp/volume/data/identity.json".to_string(),
        "/home/alice/.tezos-node/identity.json".to_string(),
    ]);
}

#[test]
fn identity_is_cached_once() {
    let mut p: Parser<String, u32, &str> = Parser::new();
    assert!(p.needs_identity());
    assert_eq!(p.connection_result(), ProcessingConnectionResult { have_identity: false });
    p.cache_identity(None);
    assert!(p.needs_identity());
    p.cache_identity(Some("first".to_string()));
    p.cache_identity(Some("second".to_string()));
    assert_eq!(p.identity(), Some(&"first".to_string()));
    assert!(p.connection_result().have_identity);
}

#[test]
fn reconnect_displaces_and_close_removes() {
    let mut p: Parser<(), u32, &str> = Parser::new();
    assert_eq!(p.register_connection(7, 1), None);
    assert_eq!(p.register_connection(9, 2), None);
    assert_eq!(p.register_connection(7, 3), Some(1));
    assert_eq!(p.working_count(), 2);
    let mut ids = p.socket_ids();
    ids.sort();
    assert_eq!(ids, vec![7, 9]);
    assert_eq!(p.remove_connection(7), Some(3));
    assert!(!p.has_connection(7));
    assert_eq!(p.remove_connection(7), None);
    assert!(p.has_connection(9));
}

#[test]
fn data_goes_to_registered_connection_only() {
    let mut p: Parser<(), u32, &str> = Parser::new();
    p.register_connection(5, 10);
    match p.connection_mut(5) {
        Some(c) => *c += 1,
        None => panic!("connection expected"),
    }
    assert!(p.connection_mut(6).is_none());
    assert_eq!(p.remove_connection(5), Some(11));
}

#[test]
fn reports_are_archived_in_order() {
    let mut p: Parser<(), u32, &str> = Parser::new();
    p.archive_report("a");
    p.archive_report("b");
    assert_eq!(p.closed_reports(), &["a", "b"]);
    assert!(matches!(Command::GetReport, Command::GetReport));
    assert_ne!(Command::GetReport, Command::Terminate);
}
