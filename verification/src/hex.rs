//! Hex-encoded configuration values: well-formedness and decoding to raw
//! key material bytes.

use vstd::prelude::*;

verus! {

pub open spec fn is_hex_digit(b: u8) -> bool {
    (48 <= b && b <= 57) || (97 <= b && b <= 102) || (65 <= b && b <= 70)
}

/// The numeric value of one hex digit.
pub open spec fn hex_digit_val(b: u8) -> int {
    if 48 <= b && b <= 57 {
        b - 48
    } else if 97 <= b && b <= 102 {
        b - 87
    } else if 65 <= b && b <= 70 {
        b - 55
    } else {
        0
    }
}

/// A syntactically well-formed hex value: an even number of hex digits.
pub open spec fn hex_wf(s: Seq<u8>) -> bool {
    s.len() % 2 == 0 && forall|i: int| 0 <= i < s.len() ==> is_hex_digit(#[trigger] s[i])
}

/// The bytes a well-formed hex string denotes, one per digit pair.
pub open spec fn hex_decode(s: Seq<u8>) -> Seq<u8>
    decreases s.len(),
{
    if s.len() < 2 {
        Seq::<u8>::empty()
    } else {
        seq![(hex_digit_val(s[0]) * 16 + hex_digit_val(s[1])) as u8] + hex_decode(
            s.subrange(2, s.len() as int),
        )
    }
}

fn hex_val_byte(b: u8) -> (r: Option<u8>)
    ensures
        r is Some <==> is_hex_digit(b),
        r matches Some(v) ==> v == hex_digit_val(b),
{
    if 48 <= b && b <= 57 {
        Some(b - 48)
    } else if 97 <= b && b <= 102 {
        Some(b - 87)
    } else if 65 <= b && b <= 70 {
        Some(b - 55)
    } else {
        None
    }
}

/// Decodes a hex value, or reports that it is not well-formed.
pub fn decode_hex(s: &[u8]) -> (r: Option<Vec<u8>>)
    ensures
        r is Some <==> hex_wf(s@),
        r matches Some(v) ==> v@ == hex_decode(s@),
{
    if s.len() % 2 != 0 {
        return None;
    }
    let mut out: Vec<u8> = Vec::new();
    let mut i: usize = 0;
    proof {
        assert(s@.subrange(0, s@.len() as int) =~= s@);
    }
    while i < s.len()
        invariant
            0 <= i <= s@.len(),
            s@.len() % 2 == 0,
            i % 2 == 0,
            forall|j: int| 0 <= j < i ==> is_hex_digit(#[trigger] s@[j]),
            out@ + hex_decode(s@.subrange(i as int, s@.len() as int)) == hex_decode(s@),
        decreases s@.len() - i,
    {
        let ghost rest = s@.subrange(i as int, s@.len() as int);
        proof {
            assert(i + 1 < s@.len());
        }
        let a = match hex_val_byte(s[i]) {
            Some(v) => v,
            None => {
                proof {
                    assert(!is_hex_digit(s@[i as int]));
                    assert(!hex_wf(s@));
                }
                return None;
            },
        };
        let b = match hex_val_byte(s[i + 1]) {
            Some(v) => v,
            None => {
                proof {
                    assert(!is_hex_digit(s@[i + 1]));
                    assert(!hex_wf(s@));
                }
                return None;
            },
        };
        proof {
            assert(rest.len() >= 2);
            assert(rest[0] == s@[i as int]);
            assert(rest[1] == s@[i + 1]);
            assert(rest.subrange(2, rest.len() as int) =~= s@.subrange(i + 2, s@.len() as int));
            assert(hex_decode(rest) == seq![
                (hex_digit_val(rest[0]) * 16 + hex_digit_val(rest[1])) as u8,
            ] + hex_decode(s@.subrange(i + 2, s@.len() as int)));
            assert(hex_digit_val(s@[i as int]) <= 15 && hex_digit_val(s@[i + 1]) <= 15);
        }
        out.push(a * 16 + b);
        proof {
            assert(out@ + hex_decode(s@.subrange(i + 2, s@.len() as int)) =~= (out@.drop_last()
                + hex_decode(rest)));
        }
        i += 2;
    }
    proof {
        assert(s@.subrange(i as int, s@.len() as int).len() == 0);
        assert(hex_decode(s@.subrange(i as int, s@.len() as int)) == Seq::<u8>::empty());
        assert(out@ =~= out@ + Seq::<u8>::empty());
        assert(hex_wf(s@));
    }
    Some(out)
}

} // verus!
