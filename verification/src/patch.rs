//! The credential patcher: rewrites the shared secret, salt and recipient
//! identity of a configuration document with values negotiated by a key
//! exchange, before the document is consumed by the context builder.

use vstd::prelude::*;

use crate::doc::{
    directive_line, document_lines, enc_ascii, enc_ascii_bytes, enc_hex, enc_hex_bytes,
    key_master_salt, key_master_salt_bytes, key_master_secret, key_master_secret_bytes,
    key_recipient_id, key_recipient_id_bytes, key_sender_id, key_sender_id_bytes, lines_of,
    make_directive_line, render_lines, NEWLINE,
};
use crate::text::{bytes_start_with, join_sep, starts_with};

verus! {

/// The replacement `master_secret,hex,"..."` line.
pub open spec fn secret_line(secret: Seq<u8>) -> Seq<u8> {
    directive_line(key_master_secret(), enc_hex(), secret)
}

/// The replacement `master_salt,hex,"..."` line.
pub open spec fn salt_line(salt: Seq<u8>) -> Seq<u8> {
    directive_line(key_master_salt(), enc_hex(), salt)
}

/// The replacement `recipient_id,ascii,"..."` line.
pub open spec fn recipient_line(recipient_id: Seq<u8>) -> Seq<u8> {
    directive_line(key_recipient_id(), enc_ascii(), recipient_id)
}

/// How one line is rewritten: lines beginning with the three credential keys
/// are replaced wholesale, every other line passes through unmodified.
pub open spec fn rewrite_line(l: Seq<u8>, secret: Seq<u8>, salt: Seq<u8>, rid: Seq<u8>) -> Seq<
    u8,
> {
    if starts_with(l, key_master_secret()) {
        secret_line(secret)
    } else if starts_with(l, key_master_salt()) {
        salt_line(salt)
    } else if starts_with(l, key_recipient_id()) {
        recipient_line(rid)
    } else {
        l
    }
}

pub open spec fn has_recipient(lines: Seq<Seq<u8>>) -> bool {
    exists|i: int| 0 <= i < lines.len() && starts_with(lines[i], key_recipient_id())
}

pub open spec fn has_sender(lines: Seq<Seq<u8>>) -> bool {
    exists|i: int| 0 <= i < lines.len() && starts_with(lines[i], key_sender_id())
}

/// `k` is the index of the first `sender_id` line.
pub open spec fn is_first_sender(lines: Seq<Seq<u8>>, k: int) -> bool {
    &&& 0 <= k < lines.len()
    &&& starts_with(lines[k], key_sender_id())
    &&& forall|j: int| 0 <= j < k ==> !starts_with(lines[j], key_sender_id())
}

pub proof fn lemma_first_sender_unique(lines: Seq<Seq<u8>>, k1: int, k2: int)
    requires
        is_first_sender(lines, k1),
        is_first_sender(lines, k2),
    ensures
        k1 == k2,
{
}

/// The patched line list: each line rewritten; when no `recipient_id` line
/// exists, one is inserted immediately after the first `sender_id` line.
pub open spec fn patched_lines(
    lines: Seq<Seq<u8>>,
    secret: Seq<u8>,
    salt: Seq<u8>,
    rid: Seq<u8>,
) -> Seq<Seq<u8>> {
    let rew = lines.map_values(|l: Seq<u8>| rewrite_line(l, secret, salt, rid));
    if has_recipient(lines) || !has_sender(lines) {
        rew
    } else {
        let k = choose|k: int| is_first_sender(lines, k);
        rew.subrange(0, k + 1) + seq![recipient_line(rid)] + rew.subrange(
            k + 1,
            rew.len() as int,
        )
    }
}

/// Rewrites the credential directives of a configuration document with the
/// negotiated secret (hex), salt (hex) and recipient identity (ASCII); all
/// other lines keep their content and relative order. When the document has
/// no `recipient_id` line, one is inserted immediately after the first
/// `sender_id` line.
pub fn patch_credentials(document: &[u8], secret: &[u8], salt: &[u8], recipient_id: &[u8]) -> (out:
    Vec<u8>)
    ensures
        out@ == join_sep(
            patched_lines(lines_of(document@), secret@, salt@, recipient_id@),
            NEWLINE,
        ),
{
    let lines = document_lines(document);
    let ghost lv = lines@.map_values(|p: Vec<u8>| p@);
    let key_secret = key_master_secret_bytes();
    let key_salt = key_master_salt_bytes();
    let key_sender = key_sender_id_bytes();
    let key_recipient = key_recipient_id_bytes();
    let hex = enc_hex_bytes();
    let ascii = enc_ascii_bytes();

    let mut rewritten: Vec<Vec<u8>> = Vec::new();
    let mut recipient_found = false;
    let mut first_sender: Option<usize> = None;
    let mut i: usize = 0;
    while i < lines.len()
        invariant
            0 <= i <= lines@.len(),
            lv == lines@.map_values(|p: Vec<u8>| p@),
            key_secret@ == key_master_secret(),
            key_salt@ == key_master_salt(),
            key_sender@ == key_sender_id(),
            key_recipient@ == key_recipient_id(),
            hex@ == enc_hex(),
            ascii@ == enc_ascii(),
            rewritten@.map_values(|p: Vec<u8>| p@) == lv.subrange(0, i as int).map_values(
                |l: Seq<u8>| rewrite_line(l, secret@, salt@, recipient_id@),
            ),
            recipient_found == has_recipient(lv.subrange(0, i as int)),
            match first_sender {
                None => forall|j: int| 0 <= j < i ==> !starts_with(lv[j], key_sender_id()),
                Some(k) => k < i && is_first_sender(lv, k as int),
            },
        decreases lines@.len() - i,
    {
        let ghost prev = rewritten@.map_values(|p: Vec<u8>| p@);
        let line = &lines[i];
        if bytes_start_with(line.as_slice(), key_secret.as_slice()) {
            rewritten.push(make_directive_line(key_secret.as_slice(), hex.as_slice(), secret));
        } else if bytes_start_with(line.as_slice(), key_salt.as_slice()) {
            rewritten.push(make_directive_line(key_salt.as_slice(), hex.as_slice(), salt));
        } else if bytes_start_with(line.as_slice(), key_recipient.as_slice()) {
            rewritten.push(
                make_directive_line(key_recipient.as_slice(), ascii.as_slice(), recipient_id),
            );
            recipient_found = true;
        } else {
            if bytes_start_with(line.as_slice(), key_sender.as_slice()) {
                if first_sender.is_none() {
                    first_sender = Some(i);
                }
            }
            rewritten.push(line.clone());
        }
        proof {
            assert(lv.subrange(0, i + 1) =~~= lv.subrange(0, i as int).push(lv[i as int]));
            assert(rewritten@.map_values(|p: Vec<u8>| p@) =~~= prev.push(
                rewrite_line(lv[i as int], secret@, salt@, recipient_id@),
            ));
            assert(lv.subrange(0, i + 1).map_values(
                |l: Seq<u8>| rewrite_line(l, secret@, salt@, recipient_id@),
            ) =~~= lv.subrange(0, i as int).map_values(
                |l: Seq<u8>| rewrite_line(l, secret@, salt@, recipient_id@),
            ).push(rewrite_line(lv[i as int], secret@, salt@, recipient_id@)));
            if starts_with(lv[i as int], key_recipient_id()) {
                assert(starts_with(lv.subrange(0, i + 1)[i as int], key_recipient_id()));
                assert(has_recipient(lv.subrange(0, i + 1)));
            } else {
                assert(has_recipient(lv.subrange(0, i + 1)) == has_recipient(
                    lv.subrange(0, i as int),
                )) by {
                    if has_recipient(lv.subrange(0, i as int)) {
                        let w = choose|w: int|
                            0 <= w < lv.subrange(0, i as int).len() && starts_with(
                                lv.subrange(0, i as int)[w],
                                key_recipient_id(),
                            );
                        assert(starts_with(lv.subrange(0, i + 1)[w], key_recipient_id()));
                    }
                    if has_recipient(lv.subrange(0, i + 1)) {
                        let w = choose|w: int|
                            0 <= w < lv.subrange(0, i + 1).len() && #[trigger] starts_with(
                                lv.subrange(0, i + 1)[w],
                                key_recipient_id(),
                            );
                        assert(w < i + 1);
                        assert(lv.subrange(0, i + 1)[w] == lv[w]);
                        if w < i {
                            assert(starts_with(lv.subrange(0, i as int)[w], key_recipient_id()));
                        }
                    }
                }
            }
        }
        i += 1;
    }
    proof {
        assert(lv.subrange(0, lv.len() as int) =~~= lv);
    }

    if !recipient_found {
        if let Some(k) = first_sender {
            let rl = make_directive_line(key_recipient.as_slice(), ascii.as_slice(), recipient_id);
            let ghost before = rewritten@.map_values(|p: Vec<u8>| p@);
            rewritten.insert(k + 1, rl);
            proof {
                let kc = choose|kc: int| is_first_sender(lv, kc);
                assert(is_first_sender(lv, k as int));
                lemma_first_sender_unique(lv, k as int, kc);
                assert(rewritten@.map_values(|p: Vec<u8>| p@) =~~= before.subrange(0, k + 1)
                    + seq![recipient_line(recipient_id@)] + before.subrange(
                    k + 1,
                    before.len() as int,
                ));
                assert(rewritten@.map_values(|p: Vec<u8>| p@) =~~= patched_lines(
                    lv,
                    secret@,
                    salt@,
                    recipient_id@,
                ));
            }
        } else {
            proof {
                assert(!has_sender(lv));
            }
        }
    }
    proof {
        assert(lines_of(document@) == lv);
    }
    render_lines(&rewritten)
}

} // verus!
