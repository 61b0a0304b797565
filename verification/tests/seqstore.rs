use oscore_client::context::{MemStore, SequenceStore};
use oscore_client::resume_sequence;
use oscore_client::seqrec::{format_sequence_record, parse_sequence_record};

#[test]
fn format_writes_decimal_and_newline() {
    assert_eq!(format_sequence_record(0), b"0\n");
    assert_eq!(format_sequence_record(5), b"5\n");
    assert_eq!(format_sequence_record(1234567890), b"1234567890\n");
    assert_eq!(
        format_sequence_record(u64::MAX),
        b"18446744073709551615\n"
    );
}

#[test]
fn parse_reads_back_what_format_wrote() {
    for v in [0u64, 1, 9, 10, 5, 42, 65535, u64::MAX - 1, u64::MAX] {
        let record = format_sequence_record(v);
        assert_eq!(parse_sequence_record(&record), Some(v));
    }
}

#[test]
fn parse_accepts_surrounding_whitespace() {
    assert_eq!(parse_sequence_record(b"  42\n"), Some(42));
    assert_eq!(parse_sequence_record(b"\t7 \r\n"), Some(7));
}

#[test]
fn parse_rejects_garbage() {
    assert_eq!(parse_sequence_record(b""), None);
    assert_eq!(parse_sequence_record(b"\n"), None);
    assert_eq!(parse_sequence_record(b"abc\n"), None);
    assert_eq!(parse_sequence_record(b"12x\n"), None);
    assert_eq!(parse_sequence_record(b"-5\n"), None);
}

#[test]
fn parse_rejects_out_of_range_values() {
    assert_eq!(parse_sequence_record(b"18446744073709551615\n"), Some(u64::MAX));
    assert_eq!(parse_sequence_record(b"18446744073709551616\n"), None);
    assert_eq!(parse_sequence_record(b"99999999999999999999999\n"), None);
}

#[test]
fn absent_store_yields_caller_default() {
    let store = MemStore::new(None, true);
    assert_eq!(store.read_initial(), None);
    assert_eq!(resume_sequence(store.read_initial(), 1), Some(1));
}

#[test]
fn recorded_store_resumes_one_past_last_used() {
    let store = MemStore::new(Some(5), true);
    assert_eq!(store.read_initial(), Some(5));
    assert_eq!(resume_sequence(store.read_initial(), 1), Some(6));
}

#[test]
fn exhausted_store_cannot_resume() {
    assert_eq!(resume_sequence(Some(u64::MAX), 1), None);
}

#[test]
fn persist_failure_leaves_record_intact() {
    let mut store = MemStore::new(Some(9), false);
    assert!(!store.persist(10));
    assert_eq!(store.read_initial(), Some(9));
}
