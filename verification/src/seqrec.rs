//! The durable sequence-number record: the backing store holds a single
//! decimal integer, newline-terminated, as its entire content. An absent or
//! unparsable record counts as "no prior value".

use vstd::prelude::*;

use crate::doc::NEWLINE;

verus! {

pub open spec fn is_digit(b: u8) -> bool {
    48 <= b && b <= 57
}

pub open spec fn all_digits(s: Seq<u8>) -> bool {
    forall|i: int| 0 <= i < s.len() ==> is_digit(#[trigger] s[i])
}

/// The integer a digit string denotes, most significant digit first.
pub open spec fn dec_value(s: Seq<u8>) -> int
    decreases s.len(),
{
    if s.len() == 0 {
        0
    } else {
        dec_value(s.drop_last()) * 10 + (s.last() - 48)
    }
}

/// The canonical digit string of an integer: no sign, no leading zero except
/// for zero itself.
pub open spec fn dec_digits(n: nat) -> Seq<u8>
    decreases n,
{
    if n < 10 {
        seq![(48 + n) as u8]
    } else {
        dec_digits(n / 10).push((48 + n % 10) as u8)
    }
}

pub open spec fn is_space(b: u8) -> bool {
    b == 32 || b == 9 || b == 10 || b == 13
}

pub open spec fn trim_start(s: Seq<u8>) -> Seq<u8>
    decreases s.len(),
{
    if s.len() > 0 && is_space(s[0]) {
        trim_start(s.drop_first())
    } else {
        s
    }
}

pub open spec fn trim_end(s: Seq<u8>) -> Seq<u8>
    decreases s.len(),
{
    if s.len() > 0 && is_space(s.last()) {
        trim_end(s.drop_last())
    } else {
        s
    }
}

pub open spec fn trimmed(s: Seq<u8>) -> Seq<u8> {
    trim_end(trim_start(s))
}

/// What a record's bytes denote: the surrounding ASCII whitespace is
/// ignored; what remains must be one or more decimal digits whose value fits
/// a 64-bit counter, else the record is unparsable.
pub open spec fn parsed_value(s: Seq<u8>) -> Option<u64> {
    let t = trimmed(s);
    if t.len() > 0 && all_digits(t) && dec_value(t) <= u64::MAX {
        Some(dec_value(t) as u64)
    } else {
        None
    }
}

pub proof fn lemma_dec_value_nonneg(s: Seq<u8>)
    requires
        all_digits(s),
    ensures
        dec_value(s) >= 0,
    decreases s.len(),
{
    if s.len() > 0 {
        assert(all_digits(s.drop_last()));
        lemma_dec_value_nonneg(s.drop_last());
    }
}

/// A digit string is worth at least any of its prefixes.
pub proof fn lemma_dec_value_prefix(s: Seq<u8>, k: int)
    requires
        all_digits(s),
        0 <= k <= s.len(),
    ensures
        dec_value(s) >= dec_value(s.subrange(0, k)),
    decreases s.len() - k,
{
    if k < s.len() {
        let p = s.subrange(0, k);
        let q = s.subrange(0, k + 1);
        assert(q.drop_last() =~= p);
        assert(all_digits(p));
        lemma_dec_value_nonneg(p);
        assert(dec_value(q) == dec_value(p) * 10 + (q.last() - 48));
        assert(is_digit(s[k]));
        lemma_dec_value_prefix(s, k + 1);
    } else {
        assert(s.subrange(0, k) =~= s);
    }
}

/// The canonical digit string reads back as the number it was made from.
pub proof fn lemma_dec_digits_value(n: nat)
    ensures
        all_digits(dec_digits(n)),
        dec_digits(n).len() >= 1,
        dec_value(dec_digits(n)) == n,
    decreases n,
{
    if n < 10 {
        let dd = dec_digits(n);
        assert(dd == seq![(48 + n) as u8]);
        assert(dd.drop_last() =~= Seq::<u8>::empty());
        assert(dec_value(Seq::<u8>::empty()) == 0);
        assert(dec_value(dd) == 0 * 10 + (dd.last() - 48));
    } else {
        lemma_dec_digits_value(n / 10);
        let d = (48 + n % 10) as u8;
        let dd = dec_digits(n);
        assert(dd == dec_digits(n / 10).push(d));
        assert(dd.drop_last() =~= dec_digits(n / 10));
        assert(dd.last() == d);
        assert(n % 10 < 10);
        assert(d - 48 == n % 10);
        assert(dec_value(dd) == dec_value(dd.drop_last()) * 10 + (dd.last() - 48));
        assert(dec_value(dd.drop_last()) == n / 10);
        assert(dec_value(dd) == (n / 10) * 10 + n % 10);
        assert((n / 10) * 10 + n % 10 == n) by {
            vstd::arithmetic::div_mod::lemma_fundamental_div_mod(n as int, 10);
        }
    }
}

/// A record written by `format_sequence_record` parses back to its value:
/// persistence of the counter round-trips across a restart.
pub proof fn lemma_record_round_trip(value: u64)
    ensures
        parsed_value(dec_digits(value as nat).push(NEWLINE)) == Some(value),
{
    lemma_dec_digits_value(value as nat);
    let digits = dec_digits(value as nat);
    let record = digits.push(NEWLINE);
    assert(is_digit(digits[0]));
    assert(!is_space(record[0]));
    assert(trim_start(record) == record);
    assert(is_space(record.last()));
    assert(record.drop_last() =~= digits);
    assert(trim_end(record) == trim_end(digits));
    assert(is_digit(digits[digits.len() - 1]));
    assert(!is_space(digits.last()));
    assert(trim_end(digits) == digits);
    assert(trimmed(record) == digits);
}

fn push_decimal(n: u64, out: &mut Vec<u8>)
    ensures
        final(out)@ == old(out)@ + dec_digits(n as nat),
    decreases n,
{
    if n < 10 {
        out.push(48 + (n as u8));
        proof {
            assert(out@ =~= old(out)@ + dec_digits(n as nat));
        }
    } else {
        let ghost mid = old(out)@ + dec_digits((n / 10) as nat);
        push_decimal(n / 10, out);
        out.push(48 + ((n % 10) as u8));
        proof {
            assert(out@ =~= old(out)@ + dec_digits(n as nat));
        }
    }
}

/// Lays a counter value out as its durable record: decimal digits followed
/// by one newline, nothing else.
pub fn format_sequence_record(value: u64) -> (out: Vec<u8>)
    ensures
        out@ == dec_digits(value as nat).push(NEWLINE),
{
    let mut out: Vec<u8> = Vec::new();
    push_decimal(value, &mut out);
    out.push(NEWLINE);
    proof {
        assert(out@ =~= dec_digits(value as nat).push(NEWLINE));
    }
    out
}

/// Reads a durable record back. Returns the recorded counter, or nothing
/// when the record is not a single in-range decimal integer.
pub fn parse_sequence_record(record: &[u8]) -> (r: Option<u64>)
    ensures
        r == parsed_value(record@),
{
    let s = record;
    let ghost sv = record@;
    proof {
        assert(sv.subrange(0, sv.len() as int) =~= sv);
    }
    let mut lo: usize = 0;
    while lo < s.len() && (s[lo] == 32 || s[lo] == 9 || s[lo] == 10 || s[lo] == 13)
        invariant
            0 <= lo <= sv.len(),
            sv == s@,
            trim_start(sv) == trim_start(sv.subrange(lo as int, sv.len() as int)),
        decreases sv.len() - lo,
    {
        proof {
            assert(sv.subrange(lo as int, sv.len() as int).drop_first() =~= sv.subrange(
                lo + 1,
                sv.len() as int,
            ));
        }
        lo += 1;
    }
    proof {
        assert(trim_start(sv) == sv.subrange(lo as int, sv.len() as int));
    }
    let mut hi: usize = s.len();
    while hi > lo && (s[hi - 1] == 32 || s[hi - 1] == 9 || s[hi - 1] == 10 || s[hi - 1] == 13)
        invariant
            lo <= hi <= sv.len(),
            sv == s@,
            trim_start(sv) == sv.subrange(lo as int, sv.len() as int),
            trim_end(sv.subrange(lo as int, sv.len() as int)) == trim_end(
                sv.subrange(lo as int, hi as int),
            ),
        decreases hi,
    {
        proof {
            assert(sv.subrange(lo as int, hi as int).drop_last() =~= sv.subrange(
                lo as int,
                hi - 1,
            ));
        }
        hi -= 1;
    }
    let ghost t = sv.subrange(lo as int, hi as int);
    proof {
        assert(trimmed(sv) == t);
    }
    if hi == lo {
        return None;
    }
    let mut acc: u64 = 0;
    let mut i: usize = lo;
    while i < hi
        invariant
            lo <= i <= hi <= sv.len(),
            sv == s@,
            sv == record@,
            t == sv.subrange(lo as int, hi as int),
            trimmed(sv) == t,
            hi > lo,
            all_digits(t.subrange(0, i - lo)),
            acc as int == dec_value(t.subrange(0, i - lo)),
        decreases hi - i,
    {
        let b = s[i];
        proof {
            assert(t[i - lo] == sv[i as int]);
        }
        if b < 48 || b > 57 {
            proof {
                assert(!is_digit(t[i - lo]));
                assert(!all_digits(t));
            }
            return None;
        }
        let d = b - 48;
        proof {
            assert(t.subrange(0, i - lo + 1).drop_last() =~= t.subrange(0, i - lo));
            assert(t.subrange(0, i - lo + 1).last() == t[i - lo]);
        }
        if acc > (u64::MAX - (d as u64)) / 10 {
            proof {
                let p = t.subrange(0, i - lo + 1);
                assert(dec_value(p) == (acc as int) * 10 + d);
                let cap = (u64::MAX - (d as u64)) as int;
                assert(cap - 9 <= (cap / 10) * 10 <= cap) by {
                    vstd::arithmetic::div_mod::lemma_fundamental_div_mod(cap, 10);
                };
                assert((acc as int) * 10 >= (cap / 10) * 10 + 10);
                assert(dec_value(p) > u64::MAX);
                if all_digits(t) {
                    lemma_dec_value_prefix(t, i - lo + 1);
                }
            }
            return None;
        }
        proof {
            let cap = (u64::MAX - (d as u64)) as int;
            assert((cap / 10) * 10 <= cap) by {
                vstd::arithmetic::div_mod::lemma_fundamental_div_mod(cap, 10);
            };
            assert((acc as int) * 10 <= cap);
        }
        acc = acc * 10 + (d as u64);
        i += 1;
    }
    proof {
        assert(t.subrange(0, (hi - lo) as int) =~= t);
    }
    Some(acc)
}

} // verus!
