//! Byte-string utilities shared by the configuration-document code: prefix
//! tests, and splitting/joining on a separator byte.

use vstd::prelude::*;

verus! {

/// `p` is a prefix of `s`.
pub open spec fn starts_with(s: Seq<u8>, p: Seq<u8>) -> bool {
    p.len() <= s.len() && s.subrange(0, p.len() as int) == p
}

/// Split on every occurrence of `sep`: n separators yield n + 1 parts, in
/// order, none containing `sep`.
pub open spec fn split_sep(s: Seq<u8>, sep: u8) -> Seq<Seq<u8>>
    decreases s.len(),
{
    if s.len() == 0 {
        seq![Seq::<u8>::empty()]
    } else if s[0] == sep {
        seq![Seq::<u8>::empty()] + split_sep(s.drop_first(), sep)
    } else {
        let rest = split_sep(s.drop_first(), sep);
        seq![seq![s[0]] + rest[0]] + rest.drop_first()
    }
}

/// The parts laid back out with one `sep` between each adjacent pair.
pub open spec fn join_sep(parts: Seq<Seq<u8>>, sep: u8) -> Seq<u8>
    decreases parts.len(),
{
    if parts.len() == 0 {
        Seq::<u8>::empty()
    } else if parts.len() == 1 {
        parts[0]
    } else {
        parts[0] + seq![sep] + join_sep(parts.drop_first(), sep)
    }
}

pub proof fn lemma_split_sep_nonempty(s: Seq<u8>, sep: u8)
    ensures
        split_sep(s, sep).len() >= 1,
    decreases s.len(),
{
    if s.len() == 0 {
    } else {
        lemma_split_sep_nonempty(s.drop_first(), sep);
    }
}

/// Appending one byte extends the last part, or opens a fresh empty part when
/// the byte is the separator.
pub proof fn lemma_split_sep_snoc(s: Seq<u8>, c: u8, sep: u8)
    ensures
        c == sep ==> split_sep(s.push(c), sep) == split_sep(s, sep).push(Seq::<u8>::empty()),
        c != sep ==> split_sep(s.push(c), sep) == split_sep(s, sep).update(
            split_sep(s, sep).len() - 1,
            split_sep(s, sep).last().push(c),
        ),
    decreases s.len(),
{
    lemma_split_sep_nonempty(s, sep);
    let t = s.push(c);
    if s.len() == 0 {
        assert(t.drop_first() =~= Seq::<u8>::empty());
        if c == sep {
            assert(split_sep(t, sep) =~~= split_sep(s, sep).push(Seq::<u8>::empty()));
        } else {
            assert(seq![t[0]] + split_sep(t.drop_first(), sep)[0] =~= Seq::<u8>::empty().push(c));
            assert(split_sep(t, sep) =~~= split_sep(s, sep).update(
                0,
                split_sep(s, sep).last().push(c),
            ));
        }
    } else {
        assert(t.drop_first() =~= s.drop_first().push(c));
        lemma_split_sep_snoc(s.drop_first(), c, sep);
        lemma_split_sep_nonempty(s.drop_first(), sep);
        let r0 = split_sep(s.drop_first(), sep);
        if s[0] == sep {
            if c == sep {
                assert(split_sep(t, sep) =~~= split_sep(s, sep).push(Seq::<u8>::empty()));
            } else {
                assert((seq![Seq::<u8>::empty()] + r0).last() == r0.last());
                assert(split_sep(t, sep) =~~= split_sep(s, sep).update(
                    split_sep(s, sep).len() - 1,
                    split_sep(s, sep).last().push(c),
                ));
            }
        } else {
            let r = split_sep(t.drop_first(), sep);
            if c == sep {
                assert(r == r0.push(Seq::<u8>::empty()));
                assert(r[0] == r0[0]);
                assert(r.drop_first() =~~= r0.drop_first().push(Seq::<u8>::empty()));
                assert(split_sep(t, sep) =~~= split_sep(s, sep).push(Seq::<u8>::empty()));
            } else {
                let m = r0.len() as int;
                assert(r == r0.update(m - 1, r0.last().push(c)));
                if m == 1 {
                    assert(r[0] == r0[0].push(c));
                    assert(seq![t[0]] + r[0] =~= (seq![s[0]] + r0[0]).push(c));
                    assert(r.drop_first() =~~= r0.drop_first());
                    assert(split_sep(s, sep) =~~= seq![seq![s[0]] + r0[0]]);
                    assert(split_sep(t, sep) =~~= split_sep(s, sep).update(
                        split_sep(s, sep).len() - 1,
                        split_sep(s, sep).last().push(c),
                    ));
                } else {
                    assert(r[0] == r0[0]);
                    assert(split_sep(s, sep).last() == r0.last());
                    assert(split_sep(t, sep) =~~= split_sep(s, sep).update(
                        split_sep(s, sep).len() - 1,
                        split_sep(s, sep).last().push(c),
                    ));
                }
            }
        }
    }
}

/// Appending one more part appends a separator and that part.
pub proof fn lemma_join_sep_snoc(parts: Seq<Seq<u8>>, q: Seq<u8>, sep: u8)
    ensures
        parts.len() == 0 ==> join_sep(parts.push(q), sep) == q,
        parts.len() >= 1 ==> join_sep(parts.push(q), sep) == join_sep(parts, sep) + seq![sep] + q,
    decreases parts.len(),
{
    if parts.len() == 0 {
        assert(join_sep(parts.push(q), sep) == parts.push(q)[0]);
    } else if parts.len() == 1 {
        let t = parts.push(q);
        assert(t.drop_first() =~~= seq![q]);
        assert(join_sep(seq![q], sep) == seq![q][0]);
        assert(join_sep(t, sep) == t[0] + seq![sep] + join_sep(t.drop_first(), sep));
        assert(join_sep(parts, sep) == parts[0]);
        assert(t[0] == parts[0]);
    } else {
        assert(parts.push(q).drop_first() =~~= parts.drop_first().push(q));
        lemma_join_sep_snoc(parts.drop_first(), q, sep);
        assert(join_sep(parts.push(q), sep) =~= join_sep(parts, sep) + seq![sep] + q);
    }
}

/// Whether `p` is a prefix of `s`, at the byte level.
pub fn bytes_start_with(s: &[u8], p: &[u8]) -> (r: bool)
    ensures
        r == starts_with(s@, p@),
{
    if p.len() > s.len() {
        return false;
    }
    let mut i: usize = 0;
    while i < p.len()
        invariant
            0 <= i <= p@.len() <= s@.len(),
            forall|j: int| 0 <= j < i ==> s@[j] == p@[j],
        decreases p@.len() - i,
    {
        if s[i] != p[i] {
            proof {
                assert(s@.subrange(0, p@.len() as int)[i as int] != p@[i as int]);
            }
            return false;
        }
        i += 1;
    }
    proof {
        assert(s@.subrange(0, p@.len() as int) =~= p@);
    }
    true
}

/// Whether the two byte strings are equal.
pub fn bytes_equal(s: &[u8], p: &[u8]) -> (r: bool)
    ensures
        r == (s@ == p@),
{
    if s.len() != p.len() {
        proof {
            assert(s@.len() != p@.len());
        }
        return false;
    }
    let r = bytes_start_with(s, p);
    proof {
        if r {
            assert(s@.subrange(0, p@.len() as int) =~= s@);
        } else {
            assert(s@ == p@ ==> s@.subrange(0, p@.len() as int) =~= p@);
        }
    }
    r
}

/// Splits the first `end` bytes of `s` on `sep`.
pub fn split_bytes(s: &[u8], end: usize, sep: u8) -> (parts: Vec<Vec<u8>>)
    requires
        end <= s@.len(),
    ensures
        parts@.map_values(|p: Vec<u8>| p@) == split_sep(s@.subrange(0, end as int), sep),
{
    let mut finished: Vec<Vec<u8>> = Vec::new();
    let mut cur: Vec<u8> = Vec::new();
    let mut i: usize = 0;
    while i < end
        invariant
            0 <= i <= end <= s@.len(),
            finished@.map_values(|p: Vec<u8>| p@).push(cur@) == split_sep(
                s@.subrange(0, i as int),
                sep,
            ),
        decreases end - i,
    {
        let c = s[i];
        proof {
            assert(s@.subrange(0, i + 1) =~= s@.subrange(0, i as int).push(c));
            lemma_split_sep_snoc(s@.subrange(0, i as int), c, sep);
            lemma_split_sep_nonempty(s@.subrange(0, i as int), sep);
        }
        if c == sep {
            let ghost before = finished@.map_values(|p: Vec<u8>| p@).push(cur@);
            finished.push(cur);
            cur = Vec::new();
            proof {
                assert(finished@.map_values(|p: Vec<u8>| p@).push(cur@) =~~= before.push(
                    Seq::<u8>::empty(),
                ));
            }
        } else {
            let ghost before = finished@.map_values(|p: Vec<u8>| p@).push(cur@);
            cur.push(c);
            proof {
                assert(before.last() == before[before.len() - 1]);
                assert(finished@.map_values(|p: Vec<u8>| p@).push(cur@) =~~= before.update(
                    before.len() - 1,
                    before.last().push(c),
                ));
            }
        }
        i += 1;
    }
    let ghost fin = finished@.map_values(|p: Vec<u8>| p@);
    let ghost curv = cur@;
    finished.push(cur);
    proof {
        assert(finished@.map_values(|p: Vec<u8>| p@) =~~= fin.push(curv));
    }
    finished
}

/// Joins `parts[start..]` with `sep` between adjacent parts.
pub fn join_bytes(parts: &Vec<Vec<u8>>, start: usize, sep: u8) -> (out: Vec<u8>)
    requires
        start <= parts@.len(),
    ensures
        out@ == join_sep(
            parts@.map_values(|p: Vec<u8>| p@).subrange(start as int, parts@.len() as int),
            sep,
        ),
{
    let ghost all = parts@.map_values(|p: Vec<u8>| p@);
    let mut out: Vec<u8> = Vec::new();
    let mut i: usize = start;
    proof {
        assert(all.subrange(start as int, start as int) =~~= Seq::<Seq<u8>>::empty());
    }
    while i < parts.len()
        invariant
            start <= i <= parts@.len(),
            all == parts@.map_values(|p: Vec<u8>| p@),
            out@ == join_sep(all.subrange(start as int, i as int), sep),
        decreases parts@.len() - i,
    {
        proof {
            assert(all.subrange(start as int, i + 1) =~~= all.subrange(
                start as int,
                i as int,
            ).push(all[i as int]));
            lemma_join_sep_snoc(all.subrange(start as int, i as int), all[i as int], sep);
        }
        if i > start {
            out.push(sep);
        }
        let mut k: usize = 0;
        let part = &parts[i];
        while k < part.len()
            invariant
                0 <= k <= part@.len(),
                i < parts@.len(),
                part == &parts[i as int],
                out@ == join_sep(all.subrange(start as int, i as int), sep) + (if i > start {
                    seq![sep]
                } else {
                    Seq::<u8>::empty()
                }) + part@.subrange(0, k as int),
            decreases part@.len() - k,
        {
            out.push(part[k]);
            proof {
                assert(part@.subrange(0, k + 1) =~= part@.subrange(0, k as int).push(
                    part@[k as int],
                ));
            }
            k += 1;
        }
        proof {
            assert(part@.subrange(0, part@.len() as int) =~= part@);
            assert(all[i as int] == part@);
            if i > start {
                assert(out@ =~= join_sep(all.subrange(start as int, i as int), sep) + seq![sep]
                    + all[i as int]);
            } else {
                assert(all.subrange(start as int, i as int).len() == 0);
                assert(out@ =~= all[i as int]);
            }
        }
        i += 1;
    }
    out
}

} // verus!
