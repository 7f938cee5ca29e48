//! The order of strings by their characters, as `str`'s `<` orders them
//! (UTF-8 bytes compare as the characters' code points do), and sorted
//! lists of distinct strings.

use vstd::prelude::*;

use crate::lints::strings_view;
use vstd::multiset::Multiset;

verus! {

/// `a` comes before `b`: at the first place they differ, `a` has the
/// smaller character, or `a` is a proper prefix of `b`.
pub open spec fn str_lt(a: Seq<char>, b: Seq<char>) -> bool
    decreases a.len(),
{
    if a.len() == 0 {
        b.len() > 0
    } else if b.len() == 0 {
        false
    } else if a[0] != b[0] {
        (a[0] as int) < (b[0] as int)
    } else {
        str_lt(a.drop_first(), b.drop_first())
    }
}

pub proof fn lemma_str_lt_irreflexive(a: Seq<char>)
    ensures
        !str_lt(a, a),
    decreases a.len(),
{
    if a.len() > 0 {
        lemma_str_lt_irreflexive(a.drop_first());
    }
}

pub proof fn lemma_str_lt_transitive(a: Seq<char>, b: Seq<char>, c: Seq<char>)
    requires
        str_lt(a, b),
        str_lt(b, c),
    ensures
        str_lt(a, c),
    decreases a.len(),
{
    if a.len() > 0 && b.len() > 0 && c.len() > 0 && a[0] == b[0] && b[0] == c[0] {
        lemma_str_lt_transitive(a.drop_first(), b.drop_first(), c.drop_first());
    }
}

pub proof fn lemma_str_lt_total(a: Seq<char>, b: Seq<char>)
    requires
        a != b,
    ensures
        str_lt(a, b) || str_lt(b, a),
    decreases a.len(),
{
    if a.len() == 0 && b.len() == 0 {
        assert(a =~= b);
    } else if a.len() > 0 && b.len() > 0 && a[0] != b[0] {
        assert((a[0] as int) != (b[0] as int));
    } else if a.len() > 0 && b.len() > 0 && a[0] == b[0] {
        if a.drop_first() == b.drop_first() {
            assert(a =~= seq![a[0]] + a.drop_first());
            assert(b =~= seq![b[0]] + b.drop_first());
        }
        lemma_str_lt_total(a.drop_first(), b.drop_first());
    }
}

/// Every string comes before the ones after it.
pub open spec fn strictly_sorted(s: Seq<Seq<char>>) -> bool {
    forall|i: int, j: int| 0 <= i < j < s.len() ==> str_lt(#[trigger] s[i], #[trigger] s[j])
}

/// The one strictly sorted sequence holding exactly the strings of a set.
pub open spec fn sorted_of(set: Set<Seq<char>>) -> Seq<Seq<char>> {
    choose|s: Seq<Seq<char>>| strictly_sorted(s) && s.to_set() == set
}

/// Two strictly sorted sequences of the same strings are equal.
pub proof fn lemma_sorted_unique(a: Seq<Seq<char>>, b: Seq<Seq<char>>)
    requires
        strictly_sorted(a),
        strictly_sorted(b),
        a.to_set() == b.to_set(),
    ensures
        a == b,
    decreases a.len(),
{
    if a.len() == 0 {
        if b.len() > 0 {
            assert(b.to_set().contains(b[0]));
        }
        assert(a =~= b);
    } else {
        assert(a.to_set().contains(a[0]));
        assert(b.len() > 0);
        assert(b.to_set().contains(b[0]));
        let j = choose|j: int| 0 <= j < b.len() && b[j] == a[0];
        let i = choose|i: int| 0 <= i < a.len() && a[i] == b[0];
        if j > 0 {
            assert(str_lt(b[0], b[j]));
            if i > 0 {
                assert(str_lt(a[0], a[i]));
                lemma_str_lt_transitive(a[0], b[0], a[0]);
            }
            lemma_str_lt_irreflexive(a[0]);
        }
        assert(a[0] == b[0]);
        let a1 = a.drop_first();
        let b1 = b.drop_first();
        assert forall|x: Seq<char>| a1.to_set().contains(x) <==> b1.to_set().contains(x) by {
            if a1.to_set().contains(x) {
                let k = choose|k: int| 0 <= k < a1.len() && a1[k] == x;
                assert(a[k + 1] == x);
                assert(str_lt(a[0], a[k + 1]));
                assert(b.to_set().contains(x));
                let m = choose|m: int| 0 <= m < b.len() && b[m] == x;
                if m == 0 {
                    lemma_str_lt_irreflexive(x);
                }
                assert(b1[m - 1] == x);
            }
            if b1.to_set().contains(x) {
                let k = choose|k: int| 0 <= k < b1.len() && b1[k] == x;
                assert(b[k + 1] == x);
                assert(str_lt(b[0], b[k + 1]));
                assert(a.to_set().contains(x));
                let m = choose|m: int| 0 <= m < a.len() && a[m] == x;
                if m == 0 {
                    lemma_str_lt_irreflexive(x);
                }
                assert(a1[m - 1] == x);
            }
        }
        assert(a1.to_set() =~= b1.to_set());
        lemma_sorted_unique(a1, b1);
        assert(a =~= seq![a[0]] + a1);
        assert(b =~= seq![b[0]] + b1);
    }
}

/// A strictly sorted sequence is the one `sorted_of` its strings gives.
pub proof fn lemma_sorted_of(s: Seq<Seq<char>>)
    requires
        strictly_sorted(s),
    ensures
        sorted_of(s.to_set()) == s,
{
    let t = sorted_of(s.to_set());
    assert(strictly_sorted(t) && t.to_set() == s.to_set());
    lemma_sorted_unique(t, s);
}

/// Whether `a` comes before `b`.
pub fn str_less(a: &[char], b: &[char]) -> (r: bool)
    ensures
        r == str_lt(a@, b@),
{
    let mut i: usize = 0;
    assert(a@.skip(0) =~= a@);
    assert(b@.skip(0) =~= b@);
    while i < a.len() && i < b.len()
        invariant
            i <= a@.len(),
            i <= b@.len(),
            str_lt(a@, b@) == str_lt(a@.skip(i as int), b@.skip(i as int)),
        decreases a@.len() - i,
    {
        assert(a@.skip(i as int)[0] == a@[i as int]);
        assert(b@.skip(i as int)[0] == b@[i as int]);
        if a[i] != b[i] {
            return a[i] < b[i];
        }
        assert(a@.skip(i as int).drop_first() =~= a@.skip(i + 1));
        assert(b@.skip(i as int).drop_first() =~= b@.skip(i + 1));
        i += 1;
    }
    i == a.len() && i < b.len()
}

/// Whether the string at `p` comes before `x`.
fn lt_at(v: &Vec<String>, p: usize, x: &[char]) -> (r: bool)
    requires
        p < v@.len(),
    ensures
        r == str_lt(v@[p as int]@, x@),
{
    let c = crate::text::chars_of(v[p].as_str());
    str_less(c.as_slice(), x)
}

/// Adds `x` to a strictly sorted list of strings, where it is not yet.
pub fn insert_sorted(v: &mut Vec<String>, x: String)
    requires
        strictly_sorted(strings_view(old(v)@)),
    ensures
        strictly_sorted(strings_view(final(v)@)),
        strings_view(final(v)@).to_set() == strings_view(old(v)@).to_set().insert(x@),
{
    let xc = crate::text::chars_of(x.as_str());
    let ghost s = strings_view(v@);
    let mut p: usize = 0;
    while p < v.len() && lt_at(v, p, xc.as_slice())
        invariant
            p <= v@.len(),
            s == strings_view(v@),
            xc@ == x@,
            forall|k: int| 0 <= k < p ==> str_lt(#[trigger] s[k], x@),
        decreases v@.len() - p,
    {
        p += 1;
    }
    if p < v.len() {
        let c = crate::text::chars_of(v[p].as_str());
        assert(c@ == s[p as int]);
        if crate::text::chars_eq(c.as_slice(), xc.as_slice()) {
            assert(s[p as int] == x@);
            assert(s.contains(x@));
            assert(s.to_set().insert(x@) =~= s.to_set());
            return;
        }
        proof {
            lemma_str_lt_total(s[p as int], x@);
        }
    }
    proof {
        assert forall|k: int| p <= k < s.len() implies str_lt(x@, #[trigger] s[k]) by {
            if k > p {
                assert(str_lt(s[p as int], s[k]));
                lemma_str_lt_transitive(x@, s[p as int], s[k]);
            }
        }
    }
    v.insert(p, x);
    proof {
        let t = strings_view(v@);
        assert(t =~= s.insert(p as int, x@));
        assert forall|i: int, j: int| 0 <= i < j < t.len() implies str_lt(#[trigger] t[i], #[trigger] t[j]) by {
            if i < p && j > p {
                lemma_str_lt_transitive(s[i], x@, s[j - 1]);
            }
        }
        assert forall|y: Seq<char>| t.to_set().contains(y) <==> s.to_set().insert(x@).contains(y) by {
            if t.to_set().contains(y) {
                let k = choose|k: int| 0 <= k < t.len() && t[k] == y;
                if k < p {
                    assert(s[k] == y);
                } else if k > p {
                    assert(s[k - 1] == y);
                }
            }
            if s.to_set().contains(y) {
                let k = choose|k: int| 0 <= k < s.len() && s[k] == y;
                if k < p {
                    assert(t[k] == y);
                } else {
                    assert(t[k + 1] == y);
                }
            }
            if y == x@ {
                assert(t[p as int] == y);
            }
        }
        assert(t.to_set() =~= s.to_set().insert(x@));
    }
}


/// `a` comes before `b` or is `b`.
pub open spec fn str_le(a: Seq<char>, b: Seq<char>) -> bool {
    a == b || str_lt(a, b)
}

/// Each string comes before or is each later one.
pub open spec fn sorted_le(s: Seq<Seq<char>>) -> bool {
    forall|i: int, j: int| 0 <= i < j < s.len() ==> str_le(#[trigger] s[i], #[trigger] s[j])
}

/// The one sorted sequence holding exactly the strings of a multiset.
pub open spec fn sorted_strings(m: Multiset<Seq<char>>) -> Seq<Seq<char>> {
    choose|s: Seq<Seq<char>>| sorted_le(s) && s.to_multiset() == m
}

/// The first string of a sorted sequence comes before or is each of its
/// strings.
proof fn lemma_first_least(a: Seq<Seq<char>>, x: Seq<char>)
    requires
        sorted_le(a),
        a.len() > 0,
        a.contains(x),
    ensures
        str_le(a[0], x),
{
    let k = choose|k: int| 0 <= k < a.len() && a[k] == x;
    if k > 0 {
        assert(str_le(a[0], a[k]));
    }
}

/// Two sorted sequences of the same strings, counted with repeats, are
/// equal.
pub proof fn lemma_sorted_le_unique(a: Seq<Seq<char>>, b: Seq<Seq<char>>)
    requires
        sorted_le(a),
        sorted_le(b),
        a.to_multiset() == b.to_multiset(),
    ensures
        a == b,
    decreases a.len(),
{
    broadcast use vstd::seq_lib::group_to_multiset_ensures;
    assert(a.len() == a.to_multiset().len());
    assert(b.len() == b.to_multiset().len());
    if a.len() > 0 {
        assert(a.contains(a[0]));
        assert(b.contains(b[0]));
        assert(a.to_multiset().count(b[0]) > 0);
        assert(b.to_multiset().count(a[0]) > 0);
        assert(a.contains(b[0]));
        assert(b.contains(a[0]));
        lemma_first_least(a, b[0]);
        lemma_first_least(b, a[0]);
        if a[0] != b[0] {
            lemma_str_lt_transitive(a[0], b[0], a[0]);
            lemma_str_lt_irreflexive(a[0]);
        }
        let a1 = a.remove(0);
        let b1 = b.remove(0);
        assert(a1.to_multiset() == a.to_multiset().remove(a[0]));
        assert(b1.to_multiset() == b.to_multiset().remove(b[0]));
        assert(sorted_le(a1)) by {
            assert forall|i: int, j: int| 0 <= i < j < a1.len() implies str_le(#[trigger] a1[i], #[trigger] a1[j]) by {
                assert(a1[i] == a[i + 1] && a1[j] == a[j + 1]);
            }
        }
        assert(sorted_le(b1)) by {
            assert forall|i: int, j: int| 0 <= i < j < b1.len() implies str_le(#[trigger] b1[i], #[trigger] b1[j]) by {
                assert(b1[i] == b[i + 1] && b1[j] == b[j + 1]);
            }
        }
        lemma_sorted_le_unique(a1, b1);
        assert(a =~= seq![a[0]] + a1);
        assert(b =~= seq![b[0]] + b1);
    } else {
        assert(b.len() == 0);
        assert(a =~= b);
    }
}

/// A sorted sequence is the sorted sequence of its strings.
pub proof fn lemma_sorted_strings(s: Seq<Seq<char>>)
    requires
        sorted_le(s),
    ensures
        sorted_strings(s.to_multiset()) == s,
{
    let t = sorted_strings(s.to_multiset());
    lemma_sorted_le_unique(s, t);
}

/// The strings in order, repeats kept.
pub fn sort_strings(v: Vec<String>) -> (r: Vec<String>)
    ensures
        sorted_le(strings_view(r@)),
        strings_view(r@).to_multiset() == strings_view(v@).to_multiset(),
        strings_view(r@) == sorted_strings(strings_view(v@).to_multiset()),
{
    broadcast use vstd::seq_lib::group_to_multiset_ensures;
    let ghost all = strings_view(v@);
    let mut rest = v;
    let mut out: Vec<String> = Vec::new();
    assert(all.skip(all.len() as int) =~= Seq::<Seq<char>>::empty());
    assert(strings_view(rest@) =~= all.take(all.len() as int));
    while rest.len() > 0
        invariant
            strings_view(rest@).len() <= all.len(),
            strings_view(rest@) == all.take(strings_view(rest@).len() as int),
            sorted_le(strings_view(out@)),
            strings_view(out@).to_multiset() == all.skip(strings_view(rest@).len() as int).to_multiset(),
        decreases rest@.len(),
    {
        let ghost n = rest@.len() as int;
        let ghost before = rest@;
        let x = rest.pop().unwrap();
        proof {
            assert(strings_view(before)[n - 1] == before[n - 1]@);
            assert(all.take(n)[n - 1] == all[n - 1]);
            assert(strings_view(rest@) =~= all.take(n - 1));
            assert(x@ == all[n - 1]);
            assert(all.skip(n - 1) =~= all.skip(n).insert(0, x@));
        }
        let ghost s = strings_view(out@);
        let xc = crate::text::chars_of(x.as_str());
        let mut p: usize = 0;
        while p < out.len() && !lt_at_rev(&out, p, xc.as_slice())
            invariant
                p <= out@.len(),
                s == strings_view(out@),
                xc@ == x@,
                forall|k: int| 0 <= k < p ==> str_le(#[trigger] s[k], x@),
            decreases out@.len() - p,
        {
            proof {
                if s[p as int] != x@ {
                    lemma_str_lt_total(s[p as int], x@);
                }
            }
            p += 1;
        }
        proof {
            assert forall|k: int| p <= k < s.len() implies str_lt(x@, #[trigger] s[k]) by {
                if k > p {
                    assert(str_le(s[p as int], s[k]));
                    if s[p as int] != s[k] {
                        lemma_str_lt_transitive(x@, s[p as int], s[k]);
                    }
                }
            }
        }
        let ghost xv = x@;
        out.insert(p, x);
        proof {
            let t = strings_view(out@);
            assert(t =~= s.insert(p as int, xv));
            assert forall|i: int, j: int| 0 <= i < j < t.len() implies str_le(#[trigger] t[i], #[trigger] t[j]) by {
                if i < p && j > p {
                    assert(str_le(s[i], xv));
                    assert(str_lt(xv, s[j - 1]));
                    if s[i] != xv {
                        lemma_str_lt_transitive(s[i], xv, s[j - 1]);
                    }
                } else if i < p && j == p {
                    assert(str_le(s[i], xv));
                } else if i == p {
                    assert(str_lt(xv, s[j - 1]));
                } else if i < p {
                    assert(str_le(s[i], s[j]));
                } else {
                    assert(str_le(s[i - 1], s[j - 1]));
                }
            }
            vstd::seq_lib::to_multiset_insert(s, p as int, xv);
            vstd::seq_lib::to_multiset_insert(all.skip(n), 0, xv);
        }
    }
    proof {
        assert(all.skip(0) =~= all);
        lemma_sorted_strings(strings_view(out@));
    }
    out
}

/// Whether `x` comes before the string at `p`.
fn lt_at_rev(v: &Vec<String>, p: usize, x: &[char]) -> (r: bool)
    requires
        p < v@.len(),
    ensures
        r == str_lt(x@, v@[p as int]@),
{
    let c = crate::text::chars_of(v[p].as_str());
    str_less(x, c.as_slice())
}

} // verus!
