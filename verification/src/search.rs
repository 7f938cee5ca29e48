//! Finding the occurrences of one text in another.

use vstd::prelude::*;

use crate::text::{blen, byte_len, char_byte_len, chars_eq, chars_of};

verus! {

/// Pushing the span of the occurrence at `k` extends the spans of `ks`
/// by the span of `k`.
proof fn lemma_push_span(
    ks: Seq<int>,
    before: Seq<(int, int)>,
    after: Seq<(usize, usize)>,
    s: Seq<char>,
    t: Seq<char>,
    k: int,
)
    requires
        before == ks.map_values(|j: int| occurrence_span(s, t, j)),
        after.len() == before.len() + 1,
        forall|j: int| 0 <= j < before.len() ==> (after[j].0 as int, after[j].1 as int) == #[trigger] before[j],
        after.last().0 as int == blen(s.take(k)),
        after.last().1 as int == blen(s.take(k)) + blen(t),
    ensures
        after.map_values(|p: (usize, usize)| (p.0 as int, p.1 as int))
            == ks.push(k).map_values(|j: int| occurrence_span(s, t, j)),
{
    let lhs = after.map_values(|p: (usize, usize)| (p.0 as int, p.1 as int));
    let rhs = ks.push(k).map_values(|j: int| occurrence_span(s, t, j));
    assert(ks.len() == before.len());
    assert forall|j: int| 0 <= j < lhs.len() implies lhs[j] == rhs[j] by {
        if j < before.len() {
            assert(before[j] == occurrence_span(s, t, ks[j]));
            assert(ks.push(k)[j] == ks[j]);
        } else {
            assert(ks.push(k)[j] == k);
            assert(after[j] == after.last());
        }
    }
    assert(lhs =~= rhs);
}

/// The character positions at which `t` occurs in `s` from position `i`
/// on, left to right and without overlaps, as `str::match_indices` finds
/// them (an empty `t` occurs at every position, the end included).
pub open spec fn occurrences(s: Seq<char>, t: Seq<char>, i: int) -> Seq<int>
    decreases s.len() + 1 - i,
{
    if i < 0 || i > s.len() {
        seq![]
    } else if t.len() == 0 {
        seq![i] + occurrences(s, t, i + 1)
    } else if i + t.len() <= s.len() && s.subrange(i, i + t.len()) == t {
        seq![i] + occurrences(s, t, i + t.len())
    } else {
        occurrences(s, t, i + 1)
    }
}

/// The byte range of the occurrence of `t` at character position `k` of `s`.
pub open spec fn occurrence_span(s: Seq<char>, t: Seq<char>, k: int) -> (int, int) {
    (blen(s.take(k)) as int, (blen(s.take(k)) + blen(t)) as int)
}

/// The byte ranges of the occurrences of `t` in `s`, in order
/// (`str::match_indices`).
pub fn match_spans(s: &str, t: &str) -> (r: Vec<(usize, usize)>)
    requires
        blen(s@) <= crate::preamble::text_bound(),
        blen(t@) <= crate::preamble::text_bound(),
    ensures
        r@.map_values(|p: (usize, usize)| (p.0 as int, p.1 as int))
            == occurrences(s@, t@, 0).map_values(|k: int| occurrence_span(s@, t@, k)),
{
    let sc = chars_of(s);
    let tc = chars_of(t);
    let tb = byte_len(tc.as_slice());
    let tl = tc.len();
    let mut r: Vec<(usize, usize)> = Vec::new();
    let ghost mut ks: Seq<int> = seq![];
    let mut i: usize = 0;
    let mut b: usize = 0;
    assert(sc@.take(0) =~= Seq::<char>::empty());
    proof {
        crate::text::lemma_len_le_blen(s@);
    }
    while i <= sc.len()
        invariant
            sc@ == s@,
            tc@ == t@,
            tb == blen(t@),
            tl == t@.len(),
            blen(s@) <= crate::preamble::text_bound(),
            blen(t@) <= crate::preamble::text_bound(),
            sc@.len() <= crate::preamble::text_bound(),
            i <= sc@.len() + 1,
            i <= sc@.len() ==> b == blen(sc@.take(i as int)),
            occurrences(s@, t@, 0) == ks + occurrences(s@, t@, i as int),
            r@.map_values(|p: (usize, usize)| (p.0 as int, p.1 as int))
                == ks.map_values(|k: int| occurrence_span(s@, t@, k)),
        decreases sc@.len() + 1 - i,
    {
        let ghost before = r@.map_values(|p: (usize, usize)| (p.0 as int, p.1 as int));
        proof {
            crate::text::lemma_blen_take_mono(s@, i as int, s@.len() as int);
            assert(s@.take(s@.len() as int) =~= s@);
        }
        if tl == 0 {
            r.push((b, b + tb));
            proof {
                assert(occurrences(s@, t@, i as int) == seq![i as int] + occurrences(s@, t@, i + 1));
                assert(ks + occurrences(s@, t@, i as int) =~= ks.push(i as int) + occurrences(s@, t@, i + 1));
                lemma_push_span(ks, before, r@, s@, t@, i as int);
                ks = ks.push(i as int);
            }
            if i < sc.len() {
                proof {
                    assert(s@.take(i + 1).drop_last() =~= s@.take(i as int));
                    crate::text::lemma_blen_take_mono(s@, i + 1, s@.len() as int);
                }
                b = b + char_byte_len(sc[i]);
            }
            i = i + 1;
        } else if tl <= sc.len() - i && chars_eq(vstd::slice::slice_subrange(sc.as_slice(), i, i + tl), tc.as_slice()) {
            proof {
                assert(occurrences(s@, t@, i as int) == seq![i as int] + occurrences(s@, t@, i + tl));
                assert(ks + occurrences(s@, t@, i as int) =~= ks.push(i as int) + occurrences(s@, t@, i + tl));
                crate::text::lemma_blen_concat(s@.take(i as int), s@.subrange(i as int, i + tl));
                assert(s@.take(i as int) + s@.subrange(i as int, i + tl) =~= s@.take(i + tl));
                crate::text::lemma_blen_take_mono(s@, i + tl, s@.len() as int);
            }
            r.push((b, b + tb));
            proof {
                lemma_push_span(ks, before, r@, s@, t@, i as int);
                ks = ks.push(i as int);
            }
            b = b + tb;
            i = i + tl;
        } else {
            proof {
                if i < sc.len() {
                    assert(occurrences(s@, t@, i as int) == occurrences(s@, t@, i + 1));
                } else {
                    assert(occurrences(s@, t@, i as int) =~= seq![]) by {
                        assert(occurrences(s@, t@, i + 1) =~= seq![]);
                    }
                    assert(occurrences(s@, t@, i + 1) =~= seq![]);
                }
            }
            if i < sc.len() {
                proof {
                    assert(s@.take(i + 1).drop_last() =~= s@.take(i as int));
                    crate::text::lemma_blen_take_mono(s@, i + 1, s@.len() as int);
                }
                b = b + char_byte_len(sc[i]);
            }
            i = i + 1;
        }
    }
    assert(occurrences(s@, t@, i as int) =~= seq![]);
    assert(ks + seq![] =~= ks);
    r
}

/// Every occurrence from position `i` on lies between `i` and the end of
/// the text.
pub proof fn lemma_occurrences_in(s: Seq<char>, t: Seq<char>, i: int)
    requires
        0 <= i,
    ensures
        forall|k: int| 0 <= k < occurrences(s, t, i).len() ==> i <= #[trigger] occurrences(s, t, i)[k] <= s.len(),
    decreases s.len() + 1 - i,
{
    if i <= s.len() {
        let o = occurrences(s, t, i);
        if t.len() == 0 || (i + t.len() <= s.len() && s.subrange(i, i + t.len()) == t) {
            let j = if t.len() == 0 { i + 1 } else { i + t.len() };
            lemma_occurrences_in(s, t, j);
            let rest = occurrences(s, t, j);
            assert(o == seq![i] + rest);
            assert forall|k: int| 0 <= k < o.len() implies i <= #[trigger] o[k] <= s.len() by {
                if k > 0 {
                    assert(o[k] == rest[k - 1]);
                }
            }
        } else {
            lemma_occurrences_in(s, t, i + 1);
            assert(o == occurrences(s, t, i + 1));
        }
    } else {
        assert(occurrences(s, t, i).len() == 0);
    }
}

} // verus!
