//! The configuration-document wire format: UTF-8 text, one directive per
//! line, each line `key,encoding,"value"`. Unrecognized lines pass through
//! the tools in this crate unmodified.

use vstd::prelude::*;

use crate::text::{join_sep, split_bytes, split_sep};

verus! {

pub const NEWLINE: u8 = 10;

pub const COMMA: u8 = 44;

pub const QUOTE: u8 = 34;

/// The bytes of the directive key `master_secret`.
pub open spec fn key_master_secret() -> Seq<u8> {
    seq![
        'm' as u8,
        'a' as u8,
        's' as u8,
        't' as u8,
        'e' as u8,
        'r' as u8,
        '_' as u8,
        's' as u8,
        'e' as u8,
        'c' as u8,
        'r' as u8,
        'e' as u8,
        't' as u8,
    ]
}

/// The bytes of the directive key `master_salt`.
pub open spec fn key_master_salt() -> Seq<u8> {
    seq![
        'm' as u8,
        'a' as u8,
        's' as u8,
        't' as u8,
        'e' as u8,
        'r' as u8,
        '_' as u8,
        's' as u8,
        'a' as u8,
        'l' as u8,
        't' as u8,
    ]
}

/// The bytes of the directive key `sender_id`.
pub open spec fn key_sender_id() -> Seq<u8> {
    seq![
        's' as u8,
        'e' as u8,
        'n' as u8,
        'd' as u8,
        'e' as u8,
        'r' as u8,
        '_' as u8,
        'i' as u8,
        'd' as u8,
    ]
}

/// The bytes of the directive key `recipient_id`.
pub open spec fn key_recipient_id() -> Seq<u8> {
    seq![
        'r' as u8,
        'e' as u8,
        'c' as u8,
        'i' as u8,
        'p' as u8,
        'i' as u8,
        'e' as u8,
        'n' as u8,
        't' as u8,
        '_' as u8,
        'i' as u8,
        'd' as u8,
    ]
}

/// The bytes of the value encoding name `hex`.
pub open spec fn enc_hex() -> Seq<u8> {
    seq!['h' as u8, 'e' as u8, 'x' as u8]
}

/// The bytes of the value encoding name `ascii`.
pub open spec fn enc_ascii() -> Seq<u8> {
    seq!['a' as u8, 's' as u8, 'c' as u8, 'i' as u8, 'i' as u8]
}

pub fn key_master_secret_bytes() -> (v: Vec<u8>)
    ensures
        v@ == key_master_secret(),
{
    let mut v: Vec<u8> = Vec::new();
    v.push('m' as u8);
    v.push('a' as u8);
    v.push('s' as u8);
    v.push('t' as u8);
    v.push('e' as u8);
    v.push('r' as u8);
    v.push('_' as u8);
    v.push('s' as u8);
    v.push('e' as u8);
    v.push('c' as u8);
    v.push('r' as u8);
    v.push('e' as u8);
    v.push('t' as u8);
    proof {
        assert(v@ =~= key_master_secret());
    }
    v
}

pub fn key_master_salt_bytes() -> (v: Vec<u8>)
    ensures
        v@ == key_master_salt(),
{
    let mut v: Vec<u8> = Vec::new();
    v.push('m' as u8);
    v.push('a' as u8);
    v.push('s' as u8);
    v.push('t' as u8);
    v.push('e' as u8);
    v.push('r' as u8);
    v.push('_' as u8);
    v.push('s' as u8);
    v.push('a' as u8);
    v.push('l' as u8);
    v.push('t' as u8);
    proof {
        assert(v@ =~= key_master_salt());
    }
    v
}

pub fn key_sender_id_bytes() -> (v: Vec<u8>)
    ensures
        v@ == key_sender_id(),
{
    let mut v: Vec<u8> = Vec::new();
    v.push('s' as u8);
    v.push('e' as u8);
    v.push('n' as u8);
    v.push('d' as u8);
    v.push('e' as u8);
    v.push('r' as u8);
    v.push('_' as u8);
    v.push('i' as u8);
    v.push('d' as u8);
    proof {
        assert(v@ =~= key_sender_id());
    }
    v
}

pub fn key_recipient_id_bytes() -> (v: Vec<u8>)
    ensures
        v@ == key_recipient_id(),
{
    let mut v: Vec<u8> = Vec::new();
    v.push('r' as u8);
    v.push('e' as u8);
    v.push('c' as u8);
    v.push('i' as u8);
    v.push('p' as u8);
    v.push('i' as u8);
    v.push('e' as u8);
    v.push('n' as u8);
    v.push('t' as u8);
    v.push('_' as u8);
    v.push('i' as u8);
    v.push('d' as u8);
    proof {
        assert(v@ =~= key_recipient_id());
    }
    v
}

pub fn enc_hex_bytes() -> (v: Vec<u8>)
    ensures
        v@ == enc_hex(),
{
    let mut v: Vec<u8> = Vec::new();
    v.push('h' as u8);
    v.push('e' as u8);
    v.push('x' as u8);
    proof {
        assert(v@ =~= enc_hex());
    }
    v
}

pub fn enc_ascii_bytes() -> (v: Vec<u8>)
    ensures
        v@ == enc_ascii(),
{
    let mut v: Vec<u8> = Vec::new();
    v.push('a' as u8);
    v.push('s' as u8);
    v.push('c' as u8);
    v.push('i' as u8);
    v.push('i' as u8);
    proof {
        assert(v@ =~= enc_ascii());
    }
    v
}

/// One directive laid out on the wire: `key,encoding,"value"`.
pub open spec fn directive_line(key: Seq<u8>, enc: Seq<u8>, value: Seq<u8>) -> Seq<u8> {
    key + seq![COMMA] + enc + seq![COMMA, QUOTE] + value + seq![QUOTE]
}

/// Builds `key,encoding,"value"` as bytes.
pub fn make_directive_line(key: &[u8], enc: &[u8], value: &[u8]) -> (out: Vec<u8>)
    ensures
        out@ == directive_line(key@, enc@, value@),
{
    let mut out: Vec<u8> = Vec::new();
    out.extend_from_slice(key);
    out.push(COMMA);
    out.extend_from_slice(enc);
    out.push(COMMA);
    out.push(QUOTE);
    out.extend_from_slice(value);
    out.push(QUOTE);
    proof {
        assert(out@ =~= directive_line(key@, enc@, value@));
    }
    out
}

/// The lines of a document: split on newlines, one optional final newline
/// carrying no empty last line.
pub open spec fn lines_of(s: Seq<u8>) -> Seq<Seq<u8>> {
    if s.len() == 0 {
        Seq::<Seq<u8>>::empty()
    } else if s.last() == NEWLINE {
        split_sep(s.drop_last(), NEWLINE)
    } else {
        split_sep(s, NEWLINE)
    }
}

pub fn document_lines(doc: &[u8]) -> (lines: Vec<Vec<u8>>)
    ensures
        lines@.map_values(|p: Vec<u8>| p@) == lines_of(doc@),
{
    if doc.len() == 0 {
        let lines: Vec<Vec<u8>> = Vec::new();
        proof {
            assert(lines@.map_values(|p: Vec<u8>| p@) =~~= lines_of(doc@));
        }
        lines
    } else if doc[doc.len() - 1] == NEWLINE {
        let lines = split_bytes(doc, doc.len() - 1, NEWLINE);
        proof {
            assert(doc@.subrange(0, doc@.len() - 1) =~= doc@.drop_last());
        }
        lines
    } else {
        let lines = split_bytes(doc, doc.len(), NEWLINE);
        proof {
            assert(doc@.subrange(0, doc@.len() as int) =~= doc@);
        }
        lines
    }
}

/// Lays lines back out as one document, newline-separated, no trailing
/// newline.
pub fn render_lines(lines: &Vec<Vec<u8>>) -> (out: Vec<u8>)
    ensures
        out@ == join_sep(lines@.map_values(|p: Vec<u8>| p@), NEWLINE),
{
    let out = crate::text::join_bytes(lines, 0, NEWLINE);
    proof {
        let all = lines@.map_values(|p: Vec<u8>| p@);
        assert(all.subrange(0, lines@.len() as int) =~~= all);
    }
    out
}

/// The inner bytes of a double-quoted value, if it is one.
pub open spec fn spec_unquote(v: Seq<u8>) -> Option<Seq<u8>> {
    if v.len() >= 2 && v[0] == QUOTE && v.last() == QUOTE {
        Some(v.subrange(1, v.len() - 1))
    } else {
        None
    }
}

pub fn unquote(v: &[u8]) -> (r: Option<Vec<u8>>)
    ensures
        r is Some <==> spec_unquote(v@) is Some,
        r matches Some(inner) ==> spec_unquote(v@) == Some(inner@),
{
    if v.len() < 2 || v[0] != QUOTE || v[v.len() - 1] != QUOTE {
        return None;
    }
    let mut inner: Vec<u8> = Vec::new();
    let mut i: usize = 1;
    while i < v.len() - 1
        invariant
            1 <= i <= v@.len() - 1,
            inner@ == v@.subrange(1, i as int),
        decreases v@.len() - 1 - i,
    {
        inner.push(v[i]);
        proof {
            assert(v@.subrange(1, i + 1) =~= v@.subrange(1, i as int).push(v@[i as int]));
        }
        i += 1;
    }
    Some(inner)
}

} // verus!
