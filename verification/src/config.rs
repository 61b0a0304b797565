//! The security-context builder: parses a configuration document into the
//! fields of a `SecurityContext`, validating the declared value encodings.

use vstd::prelude::*;

use crate::context::SecurityContext;
use crate::doc::{
    document_lines, enc_ascii, enc_ascii_bytes, enc_hex, enc_hex_bytes, key_master_salt,
    key_master_salt_bytes, key_master_secret, key_master_secret_bytes, key_recipient_id,
    key_recipient_id_bytes, key_sender_id, key_sender_id_bytes, lines_of, spec_unquote, unquote,
    COMMA,
};
use crate::hex::{decode_hex, hex_decode, hex_wf};
use crate::text::{bytes_equal, join_bytes, join_sep, split_bytes, split_sep};

verus! {

/// Why context construction failed.
#[derive(Clone, Copy, Debug, PartialEq, Eq, Structural)]
pub enum ConfigError {
    /// A recognized directive line is not `key,encoding,"value"` with a
    /// well-formed value under its declared encoding.
    Malformed,
    /// The mandatory `sender_id` directive is absent.
    MissingField,
}

/// The credential fields gathered while reading a document, each `None`
/// until its directive has been seen.
pub struct FieldState {
    pub secret: Option<Seq<u8>>,
    pub salt: Option<Seq<u8>>,
    pub sender: Option<Seq<u8>>,
    pub recipient: Option<Seq<u8>>,
}

pub open spec fn init_fields() -> FieldState {
    FieldState { secret: None, salt: None, sender: None, recipient: None }
}

/// What a value's bytes denote under its declared encoding: hex values must
/// be an even number of hex digits, ASCII values stand for themselves, any
/// other encoding name is malformed.
pub open spec fn decode_value(enc: Seq<u8>, inner: Seq<u8>) -> Option<Seq<u8>> {
    if enc == enc_hex() {
        if hex_wf(inner) {
            Some(hex_decode(inner))
        } else {
            None
        }
    } else if enc == enc_ascii() {
        Some(inner)
    } else {
        None
    }
}

/// How one line changes the gathered fields. A line with fewer than three
/// comma-separated parts, or whose key is not one of the four credential
/// keys, passes through without effect; a recognized key whose value is not
/// quoted or not well-formed under its encoding is malformed. A repeated
/// directive overwrites: the last occurrence wins.
pub open spec fn apply_line(st: FieldState, l: Seq<u8>) -> Result<FieldState, ConfigError> {
    let parts = split_sep(l, COMMA);
    if parts.len() < 3 {
        Ok(st)
    } else if parts[0] == key_master_secret() || parts[0] == key_master_salt() || parts[0]
        == key_sender_id() || parts[0] == key_recipient_id() {
        match spec_unquote(join_sep(parts.subrange(2, parts.len() as int), COMMA)) {
            None => Err(ConfigError::Malformed),
            Some(inner) => match decode_value(parts[1], inner) {
                None => Err(ConfigError::Malformed),
                Some(v) => Ok(
                    if parts[0] == key_master_secret() {
                        FieldState { secret: Some(v), ..st }
                    } else if parts[0] == key_master_salt() {
                        FieldState { salt: Some(v), ..st }
                    } else if parts[0] == key_sender_id() {
                        FieldState { sender: Some(v), ..st }
                    } else {
                        FieldState { recipient: Some(v), ..st }
                    },
                ),
            },
        }
    } else {
        Ok(st)
    }
}

/// The fields a whole document yields, reading its lines in order.
pub open spec fn fold_lines(st: FieldState, lines: Seq<Seq<u8>>) -> Result<
    FieldState,
    ConfigError,
>
    decreases lines.len(),
{
    if lines.len() == 0 {
        Ok(st)
    } else {
        match apply_line(st, lines[0]) {
            Ok(st2) => fold_lines(st2, lines.drop_first()),
            Err(e) => Err(e),
        }
    }
}

pub open spec fn or_empty(v: Option<Seq<u8>>) -> Seq<u8> {
    match v {
        Some(s) => s,
        None => Seq::<u8>::empty(),
    }
}

/// The context a successful build carries: the gathered fields (an absent
/// optional field is left empty), the caller's initial sequence number and
/// an empty wire history.
pub open spec fn context_of(c: SecurityContext, st: FieldState, initial: u64) -> bool {
    &&& c.sender_id@ == or_empty(st.sender)
    &&& c.recipient_id@ == or_empty(st.recipient)
    &&& c.master_secret@ == or_empty(st.secret)
    &&& c.master_salt@ == or_empty(st.salt)
    &&& c.sequence_number == initial
    &&& c.used@ == Seq::<u64>::empty()
}

pub open spec fn view_opt(o: Option<Vec<u8>>) -> Option<Seq<u8>> {
    match o {
        Some(v) => Some(v@),
        None => None,
    }
}

/// Builds a security context from a configuration document and the initial
/// sender sequence number. Fails with `Malformed` on the first directive
/// line that does not parse, and with `MissingField` when no `sender_id`
/// directive is present; no partial context is ever returned. Persisting
/// happens on the first send, not here.
pub fn build(initial_sequence: u64, document: &[u8]) -> (r: Result<SecurityContext, ConfigError>)
    ensures
        match fold_lines(init_fields(), lines_of(document@)) {
            Err(e) => r == Err::<SecurityContext, ConfigError>(e),
            Ok(st) => match r {
                Err(e2) => st.sender is None && e2 == ConfigError::MissingField,
                Ok(c) => st.sender is Some && context_of(c, st, initial_sequence) && c.wf(),
            },
        },
{
    let lines = document_lines(document);
    let ghost lv = lines@.map_values(|p: Vec<u8>| p@);
    let key_secret = key_master_secret_bytes();
    let key_salt = key_master_salt_bytes();
    let key_sender = key_sender_id_bytes();
    let key_recipient = key_recipient_id_bytes();
    let hexb = enc_hex_bytes();
    let asciib = enc_ascii_bytes();

    let mut secret: Option<Vec<u8>> = None;
    let mut salt: Option<Vec<u8>> = None;
    let mut sender: Option<Vec<u8>> = None;
    let mut recipient: Option<Vec<u8>> = None;

    let mut i: usize = 0;
    proof {
        assert(lv.subrange(0, lv.len() as int) =~~= lv);
    }
    while i < lines.len()
        invariant
            0 <= i <= lines@.len(),
            lv == lines@.map_values(|p: Vec<u8>| p@),
            lv == lines_of(document@),
            key_secret@ == key_master_secret(),
            key_salt@ == key_master_salt(),
            key_sender@ == key_sender_id(),
            key_recipient@ == key_recipient_id(),
            hexb@ == enc_hex(),
            asciib@ == enc_ascii(),
            fold_lines(init_fields(), lv) == fold_lines(
                (FieldState {
                    secret: view_opt(secret),
                    salt: view_opt(salt),
                    sender: view_opt(sender),
                    recipient: view_opt(recipient),
                }),
                lv.subrange(i as int, lv.len() as int),
            ),
        decreases lines@.len() - i,
    {
        let ghost cur = FieldState {
            secret: view_opt(secret),
            salt: view_opt(salt),
            sender: view_opt(sender),
            recipient: view_opt(recipient),
        };
        proof {
            assert(lv.subrange(i as int, lv.len() as int)[0] == lv[i as int]);
            assert(lv.subrange(i as int, lv.len() as int).drop_first() =~~= lv.subrange(
                i + 1,
                lv.len() as int,
            ));
        }
        let line = &lines[i];
        let parts = split_bytes(line.as_slice(), line.len(), COMMA);
        let ghost pv = parts@.map_values(|p: Vec<u8>| p@);
        proof {
            assert(line@.subrange(0, line@.len() as int) =~= line@);
            assert(line@ == lv[i as int]);
            assert(pv == split_sep(lv[i as int], COMMA));
        }
        if parts.len() < 3 {
            proof {
                assert(apply_line(cur, lv[i as int]) == Ok::<FieldState, ConfigError>(cur));
            }
            i += 1;
            continue ;
        }
        let is_secret = bytes_equal(parts[0].as_slice(), key_secret.as_slice());
        let is_salt = bytes_equal(parts[0].as_slice(), key_salt.as_slice());
        let is_sender = bytes_equal(parts[0].as_slice(), key_sender.as_slice());
        let is_recipient = bytes_equal(parts[0].as_slice(), key_recipient.as_slice());
        proof {
            assert(parts@[0]@ == pv[0]);
        }
        if !(is_secret || is_salt || is_sender || is_recipient) {
            proof {
                assert(apply_line(cur, lv[i as int]) == Ok::<FieldState, ConfigError>(cur));
            }
            i += 1;
            continue ;
        }
        let raw = join_bytes(&parts, 2, COMMA);
        proof {
            assert(raw@ == join_sep(pv.subrange(2, pv.len() as int), COMMA));
        }
        let inner = match unquote(raw.as_slice()) {
            Some(v) => v,
            None => {
                proof {
                    assert(apply_line(cur, lv[i as int]) == Err::<FieldState, ConfigError>(
                        ConfigError::Malformed,
                    ));
                }
                return Err(ConfigError::Malformed);
            },
        };
        let enc_is_hex = bytes_equal(parts[1].as_slice(), hexb.as_slice());
        let enc_is_ascii = bytes_equal(parts[1].as_slice(), asciib.as_slice());
        proof {
            assert(parts@[1]@ == pv[1]);
        }
        let value: Vec<u8>;
        if enc_is_hex {
            match decode_hex(inner.as_slice()) {
                Some(v) => {
                    value = v;
                },
                None => {
                    proof {
                        assert(decode_value(pv[1], inner@) is None);
                        assert(apply_line(cur, lv[i as int]) == Err::<FieldState, ConfigError>(
                            ConfigError::Malformed,
                        ));
                    }
                    return Err(ConfigError::Malformed);
                },
            }
        } else if enc_is_ascii {
            value = inner;
        } else {
            proof {
                assert(decode_value(pv[1], inner@) is None);
                assert(apply_line(cur, lv[i as int]) == Err::<FieldState, ConfigError>(
                    ConfigError::Malformed,
                ));
            }
            return Err(ConfigError::Malformed);
        }
        let ghost vv = value@;
        if is_secret {
            secret = Some(value);
        } else if is_salt {
            salt = Some(value);
        } else if is_sender {
            sender = Some(value);
        } else {
            recipient = Some(value);
        }
        proof {
            let next = FieldState {
                secret: view_opt(secret),
                salt: view_opt(salt),
                sender: view_opt(sender),
                recipient: view_opt(recipient),
            };
            assert(decode_value(pv[1], inner@) == Some(vv));
            assert(apply_line(cur, lv[i as int]) == Ok::<FieldState, ConfigError>(next));
        }
        i += 1;
    }
    proof {
        assert(lv.subrange(lv.len() as int, lv.len() as int).len() == 0);
        assert(fold_lines(init_fields(), lv) == Ok::<FieldState, ConfigError>(
            FieldState {
                secret: view_opt(secret),
                salt: view_opt(salt),
                sender: view_opt(sender),
                recipient: view_opt(recipient),
            },
        ));
    }
    let sender_id = match sender {
        Some(v) => v,
        None => {
            return Err(ConfigError::MissingField);
        },
    };
    let recipient_id = match recipient {
        Some(v) => v,
        None => Vec::new(),
    };
    let master_secret = match secret {
        Some(v) => v,
        None => Vec::new(),
    };
    let master_salt = match salt {
        Some(v) => v,
        None => Vec::new(),
    };
    Ok(
        SecurityContext::new(
            sender_id,
            recipient_id,
            master_secret,
            master_salt,
            initial_sequence,
        ),
    )
}

} // verus!
