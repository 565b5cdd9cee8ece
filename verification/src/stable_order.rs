//! Stable ordering of records by a composite key (a number, two strings
//! compared lexicographically, then a second number): the order `sort_by`
//! gives when it compares those keys, equal keys keeping their original
//! order.

use vstd::prelude::*;
use crate::text::{lemma_seq_lt_total_order, seq_lt};
use crate::sorting::str_lt;

verus! {

/// A composite sort key: compared by `num`, then `first`, then `second`,
/// then `tail`.
#[derive(Debug, Clone)]
pub struct SortKey {
    pub num: i128,
    pub first: String,
    pub second: String,
    pub tail: i128,
}

/// The value of a sort key.
pub ghost struct KeyView {
    pub num: int,
    pub first: Seq<char>,
    pub second: Seq<char>,
    pub tail: int,
}

impl View for SortKey {
    type V = KeyView;

    open spec fn view(&self) -> KeyView {
        KeyView { num: self.num as int, first: self.first@, second: self.second@, tail: self.tail as int }
    }
}

/// The values of a list of keys.
pub open spec fn keys_view(v: Seq<SortKey>) -> Seq<KeyView> {
    v.map_values(|k: SortKey| k@)
}

/// `a` orders strictly before `b`.
pub open spec fn key_lt(a: KeyView, b: KeyView) -> bool {
    a.num < b.num || (a.num == b.num && (seq_lt(a.first, b.first) || (a.first == b.first && (seq_lt(
        a.second,
        b.second,
    ) || (a.second == b.second && a.tail < b.tail)))))
}

/// `key_lt` is a strict total order.
pub proof fn lemma_key_lt_total(a: KeyView, b: KeyView, c: KeyView)
    ensures
        !key_lt(a, a),
        key_lt(a, b) ==> !key_lt(b, a),
        a != b ==> key_lt(a, b) || key_lt(b, a),
        key_lt(a, b) && key_lt(b, c) ==> key_lt(a, c),
{
    lemma_seq_lt_total_order(a.first, b.first, c.first);
    lemma_seq_lt_total_order(a.second, b.second, c.second);
    lemma_seq_lt_total_order(b.first, a.first, c.first);
    lemma_seq_lt_total_order(b.second, a.second, c.second);
    lemma_seq_lt_total_order(a.first, a.first, a.first);
    lemma_seq_lt_total_order(a.second, a.second, a.second);
}

/// The first position at or after `p` of `r` whose record's key comes
/// after the key of record `x`.
pub open spec fn slot(r: Seq<int>, keys: Seq<KeyView>, x: int, p: int) -> int
    decreases r.len() - p,
{
    if p < 0 || p >= r.len() || key_lt(keys[x], keys[r[p]]) {
        p
    } else {
        slot(r, keys, x, p + 1)
    }
}

/// The stable order of the first `n` records: each record, in turn,
/// inserted before the first record whose key comes after its own.
pub open spec fn stable_order_upto(keys: Seq<KeyView>, n: int) -> Seq<int>
    decreases n,
{
    if n <= 0 {
        Seq::empty()
    } else {
        let r = stable_order_upto(keys, n - 1);
        r.insert(slot(r, keys, n - 1, 0), n - 1)
    }
}

/// The positions of the records in stable key order.
pub open spec fn stable_order(keys: Seq<KeyView>) -> Seq<int> {
    stable_order_upto(keys, keys.len() as int)
}

proof fn lemma_slot_bounds(r: Seq<int>, keys: Seq<KeyView>, x: int, p: int)
    requires
        0 <= p <= r.len(),
    ensures
        p <= slot(r, keys, x, p) <= r.len(),
    decreases r.len() - p,
{
    if p < r.len() && !key_lt(keys[x], keys[r[p]]) {
        lemma_slot_bounds(r, keys, x, p + 1);
    }
}

/// The stable order of the first `n` records lists `n` positions, each
/// below `n`.
pub proof fn lemma_stable_order_range(keys: Seq<KeyView>, n: int)
    requires
        0 <= n,
    ensures
        stable_order_upto(keys, n).len() == n,
        forall|k: int| 0 <= k < n ==> 0 <= #[trigger] stable_order_upto(keys, n)[k] < n,
    decreases n,
{
    if n > 0 {
        let r = stable_order_upto(keys, n - 1);
        lemma_stable_order_range(keys, n - 1);
        lemma_slot_bounds(r, keys, n - 1, 0);
        let j = slot(r, keys, n - 1, 0);
        let s = r.insert(j, n - 1);
        assert forall|k: int| 0 <= k < n implies 0 <= #[trigger] s[k] < n by {
            if k < j {
                assert(s[k] == r[k]);
            } else if k > j {
                assert(s[k] == r[k - 1]);
            }
        }
    }
}

/// The positions `r` list records in key order: no record's key comes
/// strictly before that of a record listed earlier.
pub open spec fn ordered_by(keys: Seq<KeyView>, r: Seq<int>) -> bool {
    forall|a: int, b: int| 0 <= a < b < r.len() ==> !key_lt(#[trigger] keys[r[b]], #[trigger] keys[r[a]])
}

proof fn lemma_slot_spec(r: Seq<int>, keys: Seq<KeyView>, x: int, p: int)
    requires
        0 <= p <= r.len(),
    ensures
        forall|q: int| p <= q < slot(r, keys, x, p) ==> !key_lt(keys[x], #[trigger] keys[r[q]]),
        slot(r, keys, x, p) < r.len() ==> key_lt(keys[x], keys[r[slot(r, keys, x, p)]]),
    decreases r.len() - p,
{
    if p < r.len() && !key_lt(keys[x], keys[r[p]]) {
        lemma_slot_spec(r, keys, x, p + 1);
    }
}

/// The stable order lists the records in key order.
pub proof fn lemma_stable_order_sorted(keys: Seq<KeyView>, n: int)
    requires
        0 <= n <= keys.len(),
    ensures
        ordered_by(keys, stable_order_upto(keys, n)),
    decreases n,
{
    if n > 0 {
        let r = stable_order_upto(keys, n - 1);
        lemma_stable_order_sorted(keys, n - 1);
        lemma_stable_order_range(keys, n - 1);
        lemma_slot_bounds(r, keys, n - 1, 0);
        lemma_slot_spec(r, keys, n - 1, 0);
        let j = slot(r, keys, n - 1, 0);
        let x = n - 1;
        let s = r.insert(j, x);
        assert forall|a: int, b: int| 0 <= a < b < s.len() implies !key_lt(#[trigger] keys[s[b]], #[trigger] keys[s[a]]) by {
            if a < j && b < j {
                assert(s[a] == r[a] && s[b] == r[b]);
            } else if a < j && b == j {
                assert(s[a] == r[a] && s[b] == x);
            } else if a < j {
                assert(s[a] == r[a] && s[b] == r[b - 1]);
            } else if a == j {
                assert(s[a] == x && s[b] == r[b - 1]);
                assert(key_lt(keys[x], keys[r[j]]));
                if b - 1 > j {
                    assert(!key_lt(keys[r[b - 1]], keys[r[j]]));
                }
                lemma_key_lt_total(keys[x], keys[r[j]], keys[r[b - 1]]);
                lemma_key_lt_total(keys[r[b - 1]], keys[x], keys[r[j]]);
            } else {
                assert(s[a] == r[a - 1] && s[b] == r[b - 1]);
            }
        }
    }
}

/// The positions as integers.
pub open spec fn positions_view(v: Seq<usize>) -> Seq<int> {
    v.map_values(|x: usize| x as int)
}

fn key_lt_exec(a: &SortKey, b: &SortKey) -> (r: bool)
    ensures
        r == key_lt(a@, b@),
{
    if a.num < b.num {
        return true;
    }
    if a.num > b.num {
        return false;
    }
    if str_lt(a.first.as_str(), b.first.as_str()) {
        return true;
    }
    if str_lt(b.first.as_str(), a.first.as_str()) {
        return false;
    }
    proof {
        lemma_seq_lt_total_order(a.first@, b.first@, a.first@);
    }
    if str_lt(a.second.as_str(), b.second.as_str()) {
        return true;
    }
    if str_lt(b.second.as_str(), a.second.as_str()) {
        return false;
    }
    proof {
        lemma_seq_lt_total_order(a.second@, b.second@, a.second@);
    }
    a.tail < b.tail
}

/// The positions of `keys` in stable order: a permutation of `0..n` in
/// which keys never decrease and equal keys keep their original order.
pub fn stable_order_exec(keys: &Vec<SortKey>) -> (r: Vec<usize>)
    ensures
        positions_view(r@) == stable_order(keys_view(keys@)),
        r@.len() == keys@.len(),
        forall|k: int| 0 <= k < r@.len() ==> r@[k] < keys@.len(),
        forall|a: int, b: int| 0 <= a < b < r@.len() ==> r@[a] != r@[b],
        forall|a: int, b: int|
            0 <= a < b < r@.len() ==> !key_lt(#[trigger] keys@[r@[b] as int]@, #[trigger] keys@[r@[a] as int]@),
        forall|a: int, b: int|
            0 <= a < b < r@.len() && #[trigger] keys@[r@[a] as int]@ == #[trigger] keys@[r@[b] as int]@ ==> r@[a]
                < r@[b],
{
    let ghost kv = keys_view(keys@);
    let mut r: Vec<usize> = Vec::new();
    let mut i: usize = 0;
    assert(positions_view(r@) =~= Seq::<int>::empty());
    while i < keys.len()
        invariant
            i <= keys@.len(),
            kv == keys_view(keys@),
            positions_view(r@) == stable_order_upto(kv, i as int),
            r@.len() == i,
            forall|k: int| 0 <= k < r@.len() ==> r@[k] < i,
            forall|a: int, b: int| 0 <= a < b < r@.len() ==> r@[a] != r@[b],
            forall|a: int, b: int|
                0 <= a < b < r@.len() ==> !key_lt(#[trigger] kv[r@[b] as int], #[trigger] kv[r@[a] as int]),
            forall|a: int, b: int|
                0 <= a < b < r@.len() && #[trigger] kv[r@[a] as int] == #[trigger] kv[r@[b] as int] ==> r@[a] < r@[b],
        decreases keys@.len() - i,
    {
        let ghost s = positions_view(r@);
        let ghost x = kv[i as int];
        let mut p: usize = 0;
        while p < r.len() && !key_lt_exec(&keys[i], &keys[r[p]])
            invariant
                p <= r@.len(),
                i < keys@.len(),
                kv == keys_view(keys@),
                x == kv[i as int],
                s == positions_view(r@),
                forall|k: int| 0 <= k < r@.len() ==> r@[k] < i,
                forall|k: int| 0 <= k < p ==> !key_lt(x, #[trigger] kv[r@[k] as int]),
                slot(s, kv, i as int, 0) == slot(s, kv, i as int, p as int),
            decreases r@.len() - p,
        {
            assert(s[p as int] == r@[p as int] as int);
            p = p + 1;
        }
        proof {
            if p < r@.len() {
                assert(s[p as int] == r@[p as int] as int);
            }
            assert forall|k: int| p <= k < r@.len() implies key_lt(x, #[trigger] kv[r@[k] as int]) by {
                let y = kv[r@[p as int] as int];
                assert(key_lt(x, y));
                if k > p {
                    let z = kv[r@[k] as int];
                    assert(!key_lt(z, y));
                    lemma_key_lt_total(x, y, z);
                    lemma_key_lt_total(y, z, z);
                    lemma_key_lt_total(z, y, z);
                }
            }
        }
        assert(slot(s, kv, i as int, 0) == p);
        let ghost old_r = r@;
        r.insert(p, i);
        assert(r@ =~= old_r.insert(p as int, i));
        assert(positions_view(r@) =~= s.insert(p as int, i as int));
        proof {
            let t = r@;
            assert forall|a: int, b: int| 0 <= a < b < t.len() implies !key_lt(
                #[trigger] kv[t[b] as int],
                #[trigger] kv[t[a] as int],
            ) by {
                if b < p {
                    assert(t[a] == old_r[a] && t[b] == old_r[b]);
                } else if b == p {
                    assert(t[b] == i && t[a] == old_r[a]);
                    lemma_key_lt_total(x, kv[old_r[a] as int], x);
                } else if a < p {
                    assert(t[a] == old_r[a] && t[b] == old_r[b - 1]);
                    let u = kv[old_r[a] as int];
                    let w = kv[old_r[b - 1] as int];
                    assert(!key_lt(x, u));
                    assert(key_lt(x, w));
                    lemma_key_lt_total(w, x, u);
                    lemma_key_lt_total(u, x, u);
                    lemma_key_lt_total(x, u, w);
                    lemma_key_lt_total(u, w, u);
                } else if a == p {
                    assert(t[a] == i && t[b] == old_r[b - 1]);
                    lemma_key_lt_total(x, kv[old_r[b - 1] as int], x);
                } else {
                    assert(t[a] == old_r[a - 1] && t[b] == old_r[b - 1]);
                }
            }
            assert forall|a: int, b: int|
                0 <= a < b < t.len() && #[trigger] kv[t[a] as int] == #[trigger] kv[t[b] as int] implies t[a] < t[b] by {
                if b < p {
                    assert(t[a] == old_r[a] && t[b] == old_r[b]);
                } else if b == p {
                    assert(t[b] == i && t[a] == old_r[a]);
                } else if a < p {
                    assert(t[a] == old_r[a] && t[b] == old_r[b - 1]);
                } else if a == p {
                    assert(t[a] == i && t[b] == old_r[b - 1]);
                    assert(key_lt(x, kv[old_r[b - 1] as int]));
                    lemma_key_lt_total(x, x, x);
                } else {
                    assert(t[a] == old_r[a - 1] && t[b] == old_r[b - 1]);
                }
            }
            assert forall|a: int, b: int| 0 <= a < b < t.len() implies t[a] != t[b] by {
                if b < p {
                    assert(t[a] == old_r[a] && t[b] == old_r[b]);
                } else if b == p {
                    assert(t[b] == i && t[a] == old_r[a]);
                } else if a < p {
                    assert(t[a] == old_r[a] && t[b] == old_r[b - 1]);
                } else if a == p {
                    assert(t[a] == i && t[b] == old_r[b - 1]);
                } else {
                    assert(t[a] == old_r[a - 1] && t[b] == old_r[b - 1]);
                }
            }
            assert forall|k: int| 0 <= k < t.len() implies t[k] < i + 1 by {
                if k < p {
                    assert(t[k] == old_r[k]);
                } else if k > p {
                    assert(t[k] == old_r[k - 1]);
                }
            }
        }
        i = i + 1;
    }
    proof {
        assert forall|a: int, b: int|
            0 <= a < b < r@.len() implies !key_lt(#[trigger] keys@[r@[b] as int]@, #[trigger] keys@[r@[a] as int]@) by {
            assert(kv[r@[b] as int] == keys@[r@[b] as int]@);
            assert(kv[r@[a] as int] == keys@[r@[a] as int]@);
        }
        assert forall|a: int, b: int|
            0 <= a < b < r@.len() && #[trigger] keys@[r@[a] as int]@ == #[trigger] keys@[r@[b] as int]@ implies r@[a]
                < r@[b] by {
            assert(kv[r@[b] as int] == keys@[r@[b] as int]@);
            assert(kv[r@[a] as int] == keys@[r@[a] as int]@);
        }
    }
    r
}

} // verus!
