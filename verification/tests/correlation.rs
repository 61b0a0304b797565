use oscore_client::config::build;
use oscore_client::context::{MemStore, SendError, SequenceStore};
use oscore_client::driver::{drive, InboundRecord};
use oscore_client::resume_sequence;
use oscore_client::session::Session;

fn protected_session(initial: u64) -> Session {
    let doc = "master_secret,hex,\"aa\"\nmaster_salt,hex,\"bb\"\nsender_id,ascii,\"c\"\nrecipient_id,ascii,\"srv\"";
    let ctx = build(initial, doc.as_bytes()).unwrap();
    Session::connect(b"[::1]:5683".to_vec(), Some(ctx))
}

#[test]
fn wire_sequence_is_consecutive_with_persist_on_every_send() {
    let mut session = protected_session(1);
    let mut store = MemStore::new(None, true);
    for expected in 1u64..=4 {
        session
            .submit_request(&mut store, b"GET /hello_world".to_vec())
            .unwrap();
        assert_eq!(store.read_initial(), Some(expected));
    }
    let transmitted = drive(&mut session, Vec::new());
    let seqs: Vec<u64> = transmitted
        .iter()
        .map(|r| r.protected_seq.unwrap())
        .collect();
    assert_eq!(seqs, vec![1, 2, 3, 4]);
}

#[test]
fn restart_between_sends_leaves_no_repeat_and_no_gap() {
    let mut store = MemStore::new(None, true);
    let mut first = protected_session(resume_sequence(store.read_initial(), 1).unwrap());
    first.submit_request(&mut store, b"one".to_vec()).unwrap();
    first.submit_request(&mut store, b"two".to_vec()).unwrap();
    let sent_before = drive(&mut first, Vec::new());
    drop(first);

    let resumed = resume_sequence(store.read_initial(), 1).unwrap();
    assert_eq!(resumed, 3);
    let mut second = protected_session(resumed);
    second.submit_request(&mut store, b"three".to_vec()).unwrap();
    let sent_after = drive(&mut second, Vec::new());

    let seqs: Vec<u64> = sent_before
        .iter()
        .chain(sent_after.iter())
        .map(|r| r.protected_seq.unwrap())
        .collect();
    assert_eq!(seqs, vec![1, 2, 3]);
}

#[test]
fn persist_failure_blocks_transmission_and_counter() {
    let mut session = protected_session(5);
    let mut store = MemStore::new(Some(4), false);
    let err = session
        .submit_request(&mut store, b"payload".to_vec())
        .err().unwrap();
    assert_eq!(err, SendError::PersistFailed);
    assert_eq!(store.read_initial(), Some(4));
    let transmitted = drive(&mut session, Vec::new());
    assert!(transmitted.is_empty());
}

#[test]
fn failed_verification_is_never_surfaced() {
    let mut session = protected_session(1);
    let mut store = MemStore::new(None, true);
    let handle = session
        .submit_request(&mut store, b"GET".to_vec())
        .unwrap();
    drive(&mut session, Vec::new());
    for _ in 0..3 {
        let forged = InboundRecord {
            token: handle.token,
            verified: false,
            payload: b"forged".to_vec(),
        };
        drive(&mut session, vec![forged]);
        assert!(session.poll_handle(&handle).is_empty());
    }
}

#[test]
fn idle_drive_queues_nothing() {
    let mut session = protected_session(1);
    let transmitted = drive(&mut session, Vec::new());
    assert!(transmitted.is_empty());
    assert!(session.responses.is_empty());
}

#[test]
fn responses_for_unknown_tokens_are_dropped() {
    let mut session = protected_session(1);
    let stray = InboundRecord { token: 99, verified: true, payload: b"stray".to_vec() };
    drive(&mut session, vec![stray]);
    assert!(session.responses.is_empty());
}

#[test]
fn poll_returns_only_matching_responses_in_order() {
    let mut session = protected_session(1);
    let mut store = MemStore::new(None, true);
    let h1 = session.submit_request(&mut store, b"a".to_vec()).unwrap();
    let h2 = session.submit_request(&mut store, b"b".to_vec()).unwrap();
    drive(&mut session, Vec::new());
    let inbound = vec![
        InboundRecord { token: h1.token, verified: true, payload: b"r1".to_vec() },
        InboundRecord { token: h2.token, verified: true, payload: b"r2".to_vec() },
        InboundRecord { token: h1.token, verified: true, payload: b"r3".to_vec() },
    ];
    drive(&mut session, inbound);
    let for_h1 = session.poll_handle(&h1);
    assert_eq!(for_h1.len(), 2);
    assert_eq!(for_h1[0].payload, b"r1");
    assert_eq!(for_h1[1].payload, b"r3");
    assert!(session.poll_handle(&h1).is_empty());
    let for_h2 = session.poll_handle(&h2);
    assert_eq!(for_h2.len(), 1);
    assert_eq!(for_h2[0].payload, b"r2");
}

#[test]
fn end_to_end_request_response_with_initial_sequence_five() {
    let mut session = protected_session(5);
    let mut store = MemStore::new(None, true);
    let handle = session
        .submit_request(&mut store, b"GET coap://[::1]:5683/hello_world".to_vec())
        .unwrap();

    let transmitted = drive(&mut session, Vec::new());
    assert_eq!(transmitted.len(), 1);
    assert_eq!(transmitted[0].protected_seq, Some(5));

    let reply = InboundRecord {
        token: handle.token,
        verified: true,
        payload: b"Hello World!".to_vec(),
    };
    drive(&mut session, vec![reply]);

    let responses = session.poll_handle(&handle);
    assert_eq!(responses.len(), 1);
    assert_eq!(responses[0].payload, b"Hello World!");
    assert_eq!(store.read_initial(), Some(5));

    session.submit_request(&mut store, b"again".to_vec()).unwrap();
    assert_eq!(store.read_initial(), Some(6));
}

#[test]
fn plaintext_session_needs_no_store_writes() {
    let mut session = Session::connect(b"[::1]:5683".to_vec(), None);
    let mut store = MemStore::new(None, false);
    let handle = session
        .submit_request(&mut store, b"plain".to_vec())
        .unwrap();
    let transmitted = drive(&mut session, Vec::new());
    assert_eq!(transmitted.len(), 1);
    assert_eq!(transmitted[0].protected_seq, None);
    assert_eq!(store.read_initial(), None);
    assert_eq!(handle.token, 0);
}
