use oscore_client::patch::patch_credentials;

fn patch_str(doc: &str, secret: &str, salt: &str, rid: &str) -> String {
    let out = patch_credentials(doc.as_bytes(), secret.as_bytes(), salt.as_bytes(), rid.as_bytes());
    String::from_utf8(out).unwrap()
}

#[test]
fn replaces_credentials_and_inserts_recipient_after_sender() {
    let doc = "master_secret,hex,\"aa\"\nmaster_salt,hex,\"bb\"\nsender_id,ascii,\"c\"";
    let out = patch_str(doc, "11", "22", "dev");
    assert_eq!(
        out,
        "master_secret,hex,\"11\"\nmaster_salt,hex,\"22\"\nsender_id,ascii,\"c\"\nrecipient_id,ascii,\"dev\""
    );
}

#[test]
fn rewrites_existing_recipient_in_place() {
    let doc = "sender_id,ascii,\"c\"\nrecipient_id,ascii,\"old\"\nother,hex,\"00\"";
    let out = patch_str(doc, "11", "22", "dev");
    assert_eq!(
        out,
        "sender_id,ascii,\"c\"\nrecipient_id,ascii,\"dev\"\nother,hex,\"00\""
    );
}

#[test]
fn unrecognized_lines_pass_through_in_order() {
    let doc = "aead,ascii,\"AES-CCM-16-64-128\"\nmaster_secret,hex,\"aa\"\nreplay_window,ascii,\"32\"";
    let out = patch_str(doc, "0102", "0304", "dev");
    assert_eq!(
        out,
        "aead,ascii,\"AES-CCM-16-64-128\"\nmaster_secret,hex,\"0102\"\nreplay_window,ascii,\"32\""
    );
}

#[test]
fn no_sender_line_means_no_insertion() {
    let doc = "master_secret,hex,\"aa\"";
    let out = patch_str(doc, "11", "22", "dev");
    assert_eq!(out, "master_secret,hex,\"11\"");
}

#[test]
fn inserts_only_after_first_sender_line() {
    let doc = "sender_id,ascii,\"a\"\nsender_id,ascii,\"b\"";
    let out = patch_str(doc, "11", "22", "dev");
    assert_eq!(
        out,
        "sender_id,ascii,\"a\"\nrecipient_id,ascii,\"dev\"\nsender_id,ascii,\"b\""
    );
}

#[test]
fn trailing_newline_is_normalized_away() {
    let doc = "master_secret,hex,\"aa\"\nsender_id,ascii,\"c\"\n";
    let out = patch_str(doc, "11", "22", "dev");
    assert_eq!(
        out,
        "master_secret,hex,\"11\"\nsender_id,ascii,\"c\"\nrecipient_id,ascii,\"dev\""
    );
}

#[test]
fn empty_document_stays_empty() {
    let out = patch_str("", "11", "22", "dev");
    assert_eq!(out, "");
}
