use oscore_client::config::{build, ConfigError};

#[test]
fn builds_context_from_full_document() {
    let doc = "master_secret,hex,\"0a0B\"\nmaster_salt,hex,\"ff\"\nsender_id,ascii,\"cli\"\nrecipient_id,ascii,\"srv\"";
    let ctx = build(7, doc.as_bytes()).unwrap();
    assert_eq!(ctx.master_secret, vec![0x0a, 0x0b]);
    assert_eq!(ctx.master_salt, vec![0xff]);
    assert_eq!(ctx.sender_id, b"cli");
    assert_eq!(ctx.recipient_id, b"srv");
    assert_eq!(ctx.sequence_number, 7);
}

#[test]
fn missing_sender_id_is_a_missing_field() {
    let doc = "master_secret,hex,\"aa\"\nmaster_salt,hex,\"bb\"";
    assert_eq!(build(1, doc.as_bytes()).err().unwrap(), ConfigError::MissingField);
}

#[test]
fn absent_secret_and_salt_are_left_empty() {
    let doc = "sender_id,ascii,\"c\"";
    let ctx = build(1, doc.as_bytes()).unwrap();
    assert_eq!(ctx.sender_id, b"c");
    assert!(ctx.master_secret.is_empty());
    assert!(ctx.master_salt.is_empty());
    assert!(ctx.recipient_id.is_empty());
}

#[test]
fn odd_length_hex_is_malformed() {
    let doc = "master_secret,hex,\"abc\"\nsender_id,ascii,\"c\"";
    assert_eq!(build(1, doc.as_bytes()).err().unwrap(), ConfigError::Malformed);
}

#[test]
fn non_hex_digits_are_malformed() {
    let doc = "master_secret,hex,\"zz\"\nsender_id,ascii,\"c\"";
    assert_eq!(build(1, doc.as_bytes()).err().unwrap(), ConfigError::Malformed);
}

#[test]
fn unquoted_value_is_malformed() {
    let doc = "sender_id,ascii,c";
    assert_eq!(build(1, doc.as_bytes()).err().unwrap(), ConfigError::Malformed);
}

#[test]
fn unknown_encoding_is_malformed() {
    let doc = "sender_id,utf16,\"c\"";
    assert_eq!(build(1, doc.as_bytes()).err().unwrap(), ConfigError::Malformed);
}

#[test]
fn unrecognized_directives_are_ignored() {
    let doc = "aead,ascii,\"AES\"\nsender_id,ascii,\"c\"\nreplay_window,ascii,\"32\"";
    let ctx = build(1, doc.as_bytes()).unwrap();
    assert_eq!(ctx.sender_id, b"c");
}

#[test]
fn later_directive_overwrites_earlier() {
    let doc = "sender_id,ascii,\"a\"\nsender_id,ascii,\"b\"";
    let ctx = build(1, doc.as_bytes()).unwrap();
    assert_eq!(ctx.sender_id, b"b");
}

#[test]
fn ascii_value_may_contain_commas() {
    let doc = "sender_id,ascii,\"a,b\"";
    let ctx = build(1, doc.as_bytes()).unwrap();
    assert_eq!(ctx.sender_id, b"a,b");
}

#[test]
fn patched_document_builds_with_negotiated_credentials() {
    let doc = "master_secret,hex,\"aa\"\nmaster_salt,hex,\"bb\"\nsender_id,ascii,\"c\"";
    let patched = oscore_client::patch::patch_credentials(doc.as_bytes(), b"1122", b"3344", b"dev");
    let ctx = build(1, &patched).unwrap();
    assert_eq!(ctx.master_secret, vec![0x11, 0x22]);
    assert_eq!(ctx.master_salt, vec![0x33, 0x44]);
    assert_eq!(ctx.sender_id, b"c");
    assert_eq!(ctx.recipient_id, b"dev");
}
