//! Sorting strings in the order `str`'s `Ord` gives them (lexicographic by
//! character), and removing repeats from a sorted list.

use vstd::prelude::*;
use crate::resolution::strings_view;
use crate::text::{chars_of, lemma_seq_lt_total_order, lex_compare, seq_lt};

verus! {

/// `s` is in ascending order.
pub open spec fn sorted_strings(s: Seq<Seq<char>>) -> bool {
    forall|i: int, j: int| 0 <= i < j < s.len() ==> !seq_lt(#[trigger] s[j], #[trigger] s[i])
}

/// `s` is in strictly ascending order (sorted, with no repeats).
pub open spec fn strictly_sorted_strings(s: Seq<Seq<char>>) -> bool {
    forall|i: int, j: int| 0 <= i < j < s.len() ==> seq_lt(#[trigger] s[i], #[trigger] s[j])
}

/// The first position at or after `p` whose string comes after `x`.
pub open spec fn first_after(r: Seq<Seq<char>>, x: Seq<char>, p: int) -> int
    decreases r.len() - p,
{
    if p < 0 || p >= r.len() || seq_lt(x, r[p]) {
        p
    } else {
        first_after(r, x, p + 1)
    }
}

/// `s` sorted by inserting each string, in order, before the first string
/// that comes after it: the ascending order in which equal strings keep
/// their relative order.
pub open spec fn sorted_view(s: Seq<Seq<char>>) -> Seq<Seq<char>>
    decreases s.len(),
{
    if s.len() == 0 {
        Seq::empty()
    } else {
        let r = sorted_view(s.drop_last());
        r.insert(first_after(r, s.last(), 0), s.last())
    }
}

/// Whether `a` comes before `b`.
pub fn str_lt(a: &str, b: &str) -> (r: bool)
    ensures
        r == seq_lt(a@, b@),
{
    let x = chars_of(a);
    let y = chars_of(b);
    lex_compare(&x, &y) == -1
}

/// Whether `a` equals `b` or comes before it.
pub fn str_le(a: &str, b: &str) -> (r: bool)
    ensures
        r == !seq_lt(b@, a@),
{
    let x = chars_of(a);
    let y = chars_of(b);
    proof {
        lemma_seq_lt_total_order(a@, b@, a@);
    }
    lex_compare(&x, &y) != 1
}

/// The strings of `v` in ascending order (a stable sort).
pub fn sort_strings(v: &Vec<String>) -> (r: Vec<String>)
    ensures
        strings_view(r@) == sorted_view(strings_view(v@)),
        sorted_strings(strings_view(r@)),
        strings_view(r@).to_multiset() == strings_view(v@).to_multiset(),
{
    broadcast use vstd::seq_lib::group_to_multiset_ensures;

    let ghost vs = strings_view(v@);
    let mut r: Vec<String> = Vec::new();
    assert(vs.take(0) =~= Seq::<Seq<char>>::empty());
    assert(strings_view(r@) =~= Seq::<Seq<char>>::empty());
    let mut i: usize = 0;
    while i < v.len()
        invariant
            i <= v@.len(),
            vs == strings_view(v@),
            sorted_strings(strings_view(r@)),
            strings_view(r@) == sorted_view(vs.take(i as int)),
            strings_view(r@).to_multiset() == vs.take(i as int).to_multiset(),
        decreases v@.len() - i,
    {
        let x = v[i].clone();
        let ghost s = strings_view(r@);
        let mut p: usize = 0;
        while p < r.len() && str_le(r[p].as_str(), x.as_str())
            invariant
                p <= r@.len(),
                s == strings_view(r@),
                forall|k: int| 0 <= k < p ==> !seq_lt(x@, #[trigger] s[k]),
                first_after(s, x@, 0) == first_after(s, x@, p as int),
            decreases r@.len() - p,
        {
            p = p + 1;
        }
        proof {
            assert forall|k: int| p <= k < s.len() implies seq_lt(x@, #[trigger] s[k]) by {
                assert(seq_lt(x@, s[p as int]));
                if k > p {
                    assert(!seq_lt(s[k], s[p as int]));
                    lemma_seq_lt_total_order(x@, s[p as int], s[k]);
                    lemma_seq_lt_total_order(s[p as int], s[k], s[k]);
                }
            }
        }
        assert(first_after(s, x@, 0) == p);
        r.insert(p, x);
        let ghost t = strings_view(r@);
        assert(t =~= s.insert(p as int, x@));
        proof {
            assert forall|a: int, b: int| 0 <= a < b < t.len() implies !seq_lt(#[trigger] t[b], #[trigger] t[a]) by {
                if b < p {
                    assert(t[a] == s[a] && t[b] == s[b]);
                } else if b == p {
                    assert(t[b] == x@ && t[a] == s[a]);
                    lemma_seq_lt_total_order(x@, s[a], x@);
                } else if a < p {
                    assert(t[a] == s[a] && t[b] == s[b - 1]);
                    assert(!seq_lt(x@, s[a]));
                    assert(seq_lt(x@, s[b - 1]));
                    lemma_seq_lt_total_order(s[b - 1], x@, s[a]);
                    lemma_seq_lt_total_order(s[a], x@, s[a]);
                    lemma_seq_lt_total_order(x@, s[a], s[b - 1]);
                    lemma_seq_lt_total_order(s[a], s[b - 1], s[a]);
                } else if a == p {
                    assert(t[a] == x@ && t[b] == s[b - 1]);
                    lemma_seq_lt_total_order(x@, s[b - 1], x@);
                } else {
                    assert(t[a] == s[a - 1] && t[b] == s[b - 1]);
                }
            }
            vstd::seq_lib::to_multiset_insert(s, p as int, x@);
            assert(vs.take(i + 1) =~= vs.take(i as int).push(vs[i as int]));
            assert(vs.take(i + 1).drop_last() =~= vs.take(i as int));
            vstd::seq_lib::to_multiset_build(vs.take(i as int), vs[i as int]);
        }
        i = i + 1;
    }
    assert(vs.take(i as int) =~= vs);
    r
}

/// The distinct strings of a sorted list, in ascending order
/// (`Vec::dedup` on a sorted vector).
pub fn dedup_sorted_strings(v: &Vec<String>) -> (r: Vec<String>)
    requires
        sorted_strings(strings_view(v@)),
    ensures
        strictly_sorted_strings(strings_view(r@)),
        strings_view(r@).to_set() == strings_view(v@).to_set(),
{
    let ghost vs = strings_view(v@);
    let mut r: Vec<String> = Vec::new();
    let mut i: usize = 0;
    while i < v.len()
        invariant
            i <= v@.len(),
            vs == strings_view(v@),
            sorted_strings(vs),
            strictly_sorted_strings(strings_view(r@)),
            forall|x: Seq<char>| #[trigger] strings_view(r@).contains(x) <==> vs.take(i as int).contains(x),
            i > 0 ==> strings_view(r@).len() > 0 && strings_view(r@).last() == vs[i - 1],
            i == 0 ==> r@.len() == 0,
        decreases v@.len() - i,
    {
        let ghost s = strings_view(r@);
        let keep = r.len() == 0 || !crate::text::str_eq(r[r.len() - 1].as_str(), v[i].as_str());
        if keep {
            let x = v[i].clone();
            r.push(x);
            assert(strings_view(r@) =~= s.push(vs[i as int]));
            proof {
                if i > 0 {
                    assert(!seq_lt(vs[i as int], vs[i - 1]));
                    lemma_seq_lt_total_order(vs[i - 1], vs[i as int], vs[i as int]);
                    assert forall|a: int, b: int| 0 <= a < b < s.len() + 1 implies seq_lt(
                        #[trigger] strings_view(r@)[a],
                        #[trigger] strings_view(r@)[b],
                    ) by {
                        if b == s.len() && a < s.len() - 1 {
                            assert(seq_lt(s[a], s[s.len() - 1]));
                            lemma_seq_lt_total_order(s[a], s[s.len() - 1], vs[i as int]);
                        }
                    }
                }
            }
        }
        proof {
            let t0 = vs.take(i as int);
            let t1 = vs.take(i + 1);
            let rv = strings_view(r@);
            assert(t1 =~= t0.push(vs[i as int]));
            assert forall|x: Seq<char>| #[trigger] rv.contains(x) <==> t1.contains(x) by {
                if t1.contains(x) {
                    let j = choose|j: int| 0 <= j < t1.len() && t1[j] == x;
                    if j < i {
                        assert(t0[j] == x);
                        assert(s.contains(x));
                        let m = choose|m: int| 0 <= m < s.len() && s[m] == x;
                        assert(rv[m] == x);
                    } else {
                        assert(rv[rv.len() - 1] == x);
                    }
                }
                if rv.contains(x) {
                    let m = choose|m: int| 0 <= m < rv.len() && rv[m] == x;
                    if m < s.len() {
                        assert(s[m] == x);
                        assert(s.contains(x));
                        assert(t0.contains(x));
                        let j = choose|j: int| 0 <= j < t0.len() && t0[j] == x;
                        assert(t1[j] == x);
                    } else {
                        assert(t1[i as int] == x);
                    }
                }
            }
        }
        i = i + 1;
    }
    assert(vs.take(i as int) =~= vs);
    assert(strings_view(r@).to_set() =~= vs.to_set());
    r
}

} // verus!
