//! Association lists: sequences of key/value pairs read with first-match
//! semantics, the model of the first-wins maps and name sets used by origin
//! resolution.

use vstd::prelude::*;

verus! {

/// The value of the first pair in `s` whose key is `k`.
pub open spec fn first_value<K, V>(s: Seq<(K, V)>, k: K) -> Option<V>
    decreases s.len(),
{
    if s.len() == 0 {
        None
    } else {
        match first_value(s.drop_last(), k) {
            Some(v) => Some(v),
            None => if s.last().0 == k {
                Some(s.last().1)
            } else {
                None
            },
        }
    }
}

/// Whether `s` binds `k`.
pub open spec fn has_key<K, V>(s: Seq<(K, V)>, k: K) -> bool {
    first_value(s, k) is Some
}

/// Appending a pair changes the first match only when `k` was unbound.
pub proof fn lemma_first_value_push<K, V>(s: Seq<(K, V)>, x: (K, V), k: K)
    ensures
        first_value(s.push(x), k) == (match first_value(s, k) {
            Some(v) => Some(v),
            None => if x.0 == k {
                Some(x.1)
            } else {
                None
            },
        }),
{
    assert(s.push(x).drop_last() =~= s);
}

/// A key bound in a prefix keeps its first value in the whole list.
pub proof fn lemma_first_value_prefix<K, V>(s: Seq<(K, V)>, n: int, k: K)
    requires
        0 <= n <= s.len(),
        first_value(s.take(n), k) is Some,
    ensures
        first_value(s, k) == first_value(s.take(n), k),
    decreases s.len(),
{
    if n == s.len() {
        assert(s.take(n) =~= s);
    } else {
        assert(s.drop_last().take(n) =~= s.take(n));
        lemma_first_value_prefix(s.drop_last(), n, k);
    }
}

/// One step of a front-to-back scan: the prefix of length `i + 1` binds `k`
/// first at `i` when the shorter prefix does not bind it.
pub proof fn lemma_first_value_step<K, V>(s: Seq<(K, V)>, i: int, k: K)
    requires
        0 <= i < s.len(),
    ensures
        first_value(s.take(i + 1), k) == (match first_value(s.take(i), k) {
            Some(v) => Some(v),
            None => if s[i].0 == k {
                Some(s[i].1)
            } else {
                None
            },
        }),
{
    assert(s.take(i + 1).drop_last() =~= s.take(i));
}

/// `k` is bound exactly when some pair carries it, and the first value is
/// carried by such a pair.
pub proof fn lemma_first_value_exists<K, V>(s: Seq<(K, V)>, k: K)
    ensures
        has_key(s, k) <==> exists|i: int| 0 <= i < s.len() && (#[trigger] s[i]).0 == k,
        first_value(s, k) matches Some(v) ==> exists|i: int|
            0 <= i < s.len() && (#[trigger] s[i]).0 == k && s[i].1 == v,
    decreases s.len(),
{
    if s.len() > 0 {
        let t = s.drop_last();
        lemma_first_value_exists(t, k);
        if has_key(t, k) {
            let i = choose|i: int| 0 <= i < t.len() && (#[trigger] t[i]).0 == k && t[i].1
                == first_value(t, k)->Some_0;
            assert(s[i] == t[i]);
        }
        if exists|i: int| 0 <= i < s.len() && (#[trigger] s[i]).0 == k {
            let i = choose|i: int| 0 <= i < s.len() && (#[trigger] s[i]).0 == k;
            if i < s.len() - 1 {
                assert(t[i] == s[i]);
            }
        }
        if first_value(s, k) is Some && !has_key(t, k) {
            assert(s[s.len() - 1] == s.last());
        }
    }
}

/// Replacing the value at the first pair keyed `k0` rebinds `k0` and leaves
/// every other key alone.
pub proof fn lemma_first_value_update<K, V>(s: Seq<(K, V)>, i: int, k0: K, v: V, k: K)
    requires
        0 <= i < s.len(),
        s[i].0 == k0,
        first_value(s.take(i), k0) is None,
    ensures
        first_value(s.update(i, (k0, v)), k) == (if k == k0 {
            Some(v)
        } else {
            first_value(s, k)
        }),
    decreases s.len(),
{
    let u = s.update(i, (k0, v));
    if i == s.len() - 1 {
        assert(u.drop_last() =~= s.drop_last());
        assert(s.take(i) =~= s.drop_last());
    } else {
        assert(u.drop_last() =~= s.drop_last().update(i, (k0, v)));
        assert(s.drop_last().take(i) =~= s.take(i));
        lemma_first_value_update(s.drop_last(), i, k0, v, k);
    }
}

/// The position of the first pair keyed `k`.
pub open spec fn key_pos<K, V>(s: Seq<(K, V)>, k: K) -> Option<int>
    decreases s.len(),
{
    if s.len() == 0 {
        None
    } else {
        match key_pos(s.drop_last(), k) {
            Some(i) => Some(i),
            None => if s.last().0 == k {
                Some(s.len() - 1)
            } else {
                None
            },
        }
    }
}

/// What `key_pos` finds: the first pair keyed `k`, whose value is the first
/// value of `k`.
pub proof fn lemma_key_pos<K, V>(s: Seq<(K, V)>, k: K)
    ensures
        key_pos(s, k) matches Some(i) ==> 0 <= i < s.len() && s[i].0 == k && first_value(s.take(i), k) is None
            && first_value(s, k) == Some(s[i].1),
        key_pos(s, k) is None ==> first_value(s, k) is None,
    decreases s.len(),
{
    if s.len() > 0 {
        lemma_key_pos(s.drop_last(), k);
        match key_pos(s.drop_last(), k) {
            Some(i) => {
                assert(s.drop_last().take(i) =~= s.take(i));
            },
            None => {
                if s.last().0 == k {
                    assert(s.take(s.len() - 1) =~= s.drop_last());
                }
            },
        }
    }
}

/// A key found in a prefix is found at the same place in the whole sequence.
pub proof fn lemma_key_pos_prefix<K, V>(s: Seq<(K, V)>, n: int, k: K)
    requires
        0 <= n <= s.len(),
        key_pos(s.take(n), k) is Some,
    ensures
        key_pos(s, k) == key_pos(s.take(n), k),
    decreases s.len(),
{
    if n == s.len() {
        assert(s.take(n) =~= s);
    } else {
        assert(s.drop_last().take(n) =~= s.take(n));
        lemma_key_pos_prefix(s.drop_last(), n, k);
    }
}

} // verus!
