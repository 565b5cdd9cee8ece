//! Character-level string helpers shared by the library's parsers.
//!
//! Strings are reasoned about through their `Seq<char>` views. The search
//! specifications (`occurs_at`, `find_from`) describe the leftmost occurrence
//! of a needle at or after a position; the executable helpers below are proved
//! against them.

use vstd::prelude::*;

verus! {

/// Appending a single character to a `String` extends its view by that character.
pub assume_specification[ String::push ](s: &mut String, ch: char)
    ensures
        final(s)@ == old(s)@.push(ch),
;

/// `needle` occurs in `s` starting at position `i`.
pub open spec fn occurs_at<A>(s: Seq<A>, needle: Seq<A>, i: int) -> bool {
    &&& 0 <= i
    &&& i + needle.len() <= s.len()
    &&& s.subrange(i, i + needle.len()) == needle
}

/// The leftmost position `>= from` where `needle` occurs in `s`.
pub open spec fn find_from<A>(s: Seq<A>, needle: Seq<A>, from: int) -> Option<int>
    decreases s.len() + 1 - from,
{
    if from < 0 || from > s.len() || from + needle.len() > s.len() {
        None
    } else if occurs_at(s, needle, from) {
        Some(from)
    } else {
        find_from(s, needle, from + 1)
    }
}

/// `needle` occurs somewhere in `s`.
pub open spec fn contains_seq<A>(s: Seq<A>, needle: Seq<A>) -> bool {
    exists|i: int| occurs_at(s, needle, i)
}

/// `s` begins with `prefix`.
pub open spec fn starts_with(s: Seq<char>, prefix: Seq<char>) -> bool {
    occurs_at(s, prefix, 0)
}

/// `s` ends with `suffix`.
pub open spec fn ends_with(s: Seq<char>, suffix: Seq<char>) -> bool {
    suffix.len() <= s.len() && occurs_at(s, suffix, s.len() - suffix.len())
}

/// The split of `s` around the leftmost occurrence of `sep`.
pub open spec fn split_once<A>(s: Seq<A>, sep: Seq<A>) -> Option<(Seq<A>, Seq<A>)> {
    match find_from(s, sep, 0) {
        Some(i) => Some((s.subrange(0, i), s.subrange(i + sep.len(), s.len() as int))),
        None => None,
    }
}

/// `find_from` is the leftmost occurrence: it returns `j` exactly when `needle`
/// occurs at `j` and nowhere in `[from, j)`.
pub proof fn lemma_find_from_is_leftmost<A>(s: Seq<A>, needle: Seq<A>, from: int, j: int)
    requires
        0 <= from <= j,
        occurs_at(s, needle, j),
        forall|k: int| from <= k < j ==> !occurs_at(s, needle, k),
    ensures
        find_from(s, needle, from) == Some(j),
    decreases j - from,
{
    if from < j {
        lemma_find_from_is_leftmost(s, needle, from + 1, j);
    }
}

/// What `find_from` returns: a leftmost occurrence at or after `from`, or `None`
/// when there is none.
pub proof fn lemma_find_from_sound<A>(s: Seq<A>, needle: Seq<A>, from: int)
    requires
        0 <= from,
    ensures
        find_from(s, needle, from) matches Some(j) ==> {
            &&& from <= j
            &&& occurs_at(s, needle, j)
            &&& forall|k: int| from <= k < j ==> !occurs_at(s, needle, k)
        },
        find_from(s, needle, from) is None ==> forall|k: int|
            from <= k ==> !#[trigger] occurs_at(s, needle, k),
    decreases s.len() + 1 - from,
{
    if from > s.len() || from + needle.len() > s.len() {
        assert forall|k: int| from <= k implies !#[trigger] occurs_at(s, needle, k) by {}
    } else if !occurs_at(s, needle, from) {
        lemma_find_from_sound(s, needle, from + 1);
    }
}

/// The characters of `s`, in order.
pub fn chars_of(s: &str) -> (r: Vec<char>)
    ensures
        r@ == s@,
{
    let mut r: Vec<char> = Vec::new();
    for c in it: s.chars()
        invariant
            r@ == it.seq().take(it.index()),
    {
        r.push(c);
    }
    r
}

/// A `String` holding exactly the characters of `v`.
pub fn string_of(v: &[char]) -> (r: String)
    ensures
        r@ == v@,
{
    let mut r = String::new();
    let mut i: usize = 0;
    while i < v.len()
        invariant
            i <= v.len(),
            r@ == v@.take(i as int),
        decreases v.len() - i,
    {
        r.push(v[i]);
        i = i + 1;
        assert(r@ =~= v@.take(i as int));
    }
    assert(v@.take(v.len() as int) =~= v@);
    r
}

/// A `String` holding the characters `v[lo..hi]`.
pub fn string_of_range(v: &[char], lo: usize, hi: usize) -> (r: String)
    requires
        lo <= hi <= v.len(),
    ensures
        r@ == v@.subrange(lo as int, hi as int),
{
    let mut r = String::new();
    let mut i: usize = lo;
    while i < hi
        invariant
            lo <= i <= hi <= v.len(),
            r@ == v@.subrange(lo as int, i as int),
        decreases hi - i,
    {
        r.push(v[i]);
        i = i + 1;
        assert(r@ =~= v@.subrange(lo as int, i as int));
    }
    r
}

/// Appends `v[lo..hi]` to `out`.
pub fn push_range(out: &mut String, v: &[char], lo: usize, hi: usize)
    requires
        lo <= hi <= v.len(),
    ensures
        final(out)@ == old(out)@ + v@.subrange(lo as int, hi as int),
{
    let ghost start = out@;
    let mut i: usize = lo;
    while i < hi
        invariant
            lo <= i <= hi <= v.len(),
            out@ == start + v@.subrange(lo as int, i as int),
        decreases hi - i,
    {
        out.push(v[i]);
        i = i + 1;
        assert(out@ =~= start + v@.subrange(lo as int, i as int));
    }
}

/// Appends all of `t` to `out`.
pub fn push_str(out: &mut String, t: &str)
    ensures
        final(out)@ == old(out)@ + t@,
{
    let cs = chars_of(t);
    push_range(out, &cs, 0, cs.len());
    assert(cs@.subrange(0, cs@.len() as int) =~= t@);
}

/// Whether `needle` occurs in `s` at position `i`.
pub fn occurs_at_exec(s: &[char], needle: &[char], i: usize) -> (r: bool)
    ensures
        r == occurs_at(s@, needle@, i as int),
{
    if i > s.len() || needle.len() > s.len() - i {
        return false;
    }
    let mut k: usize = 0;
    while k < needle.len()
        invariant
            k <= needle.len(),
            i + needle.len() <= s.len(),
            forall|m: int| 0 <= m < k ==> s@[i + m] == needle@[m],
        decreases needle.len() - k,
    {
        if s[i + k] != needle[k] {
            assert(s@.subrange(i as int, i + needle.len())[k as int] != needle@[k as int]);
            return false;
        }
        k = k + 1;
    }
    assert(s@.subrange(i as int, i + needle.len()) =~= needle@);
    true
}

/// The leftmost occurrence of `needle` in `s` at or after `from`.
pub fn find_from_exec(s: &[char], needle: &[char], from: usize) -> (r: Option<usize>)
    ensures
        r matches Some(j) ==> find_from(s@, needle@, from as int) == Some(j as int),
        r is None ==> find_from(s@, needle@, from as int) is None,
{
    if from > s.len() || needle.len() > s.len() - from {
        return None;
    }
    if needle.len() == 0 {
        assert(s@.subrange(from as int, from as int) =~= needle@);
        return Some(from);
    }
    let mut i: usize = from;
    while i <= s.len() - needle.len()
        invariant
            from <= i <= s.len(),
            1 <= needle.len() <= s.len(),
            find_from(s@, needle@, from as int) == find_from(s@, needle@, i as int),
        decreases s.len() + 1 - i,
    {
        if occurs_at_exec(s, needle, i) {
            return Some(i);
        }
        i = i + 1;
    }
    None
}

/// Whether the views of two strings are equal.
pub fn str_eq(a: &str, b: &str) -> (r: bool)
    ensures
        r == (a@ == b@),
{
    let x = chars_of(a);
    let y = chars_of(b);
    if x.len() != y.len() {
        return false;
    }
    let mut i: usize = 0;
    while i < x.len()
        invariant
            i <= x.len(),
            x.len() == y.len(),
            x@ == a@,
            y@ == b@,
            forall|k: int| 0 <= k < i ==> x@[k] == y@[k],
        decreases x.len() - i,
    {
        let xc: char = x[i];
        let yc: char = y[i];
        if !(xc == yc) {
            proof {
                if a@ == b@ {
                    assert(x@[i as int] == y@[i as int]);
                }
            }
            return false;
        }
        i = i + 1;
    }
    assert(x@ =~= y@);
    true
}

/// Whether `needle` occurs anywhere in `s`.
pub fn str_contains(s: &str, needle: &str) -> (r: bool)
    ensures
        r == contains_seq(s@, needle@),
{
    let x = chars_of(s);
    let y = chars_of(needle);
    let f = find_from_exec(&x, &y, 0);
    proof {
        lemma_find_from_sound(x@, y@, 0);
    }
    f.is_some()
}

/// Whether `s` starts with `prefix`.
pub fn str_starts_with(s: &str, prefix: &str) -> (r: bool)
    ensures
        r == starts_with(s@, prefix@),
{
    let x = chars_of(s);
    let y = chars_of(prefix);
    occurs_at_exec(&x, &y, 0)
}

/// Whether `s` ends with `suffix`.
pub fn str_ends_with(s: &str, suffix: &str) -> (r: bool)
    ensures
        r == ends_with(s@, suffix@),
{
    let x = chars_of(s);
    let y = chars_of(suffix);
    if y.len() > x.len() {
        return false;
    }
    occurs_at_exec(&x, &y, x.len() - y.len())
}

/// Code-point order on characters (the order of their UTF-8 encodings).
pub open spec fn char_lt(a: char, b: char) -> bool {
    (a as int) < (b as int)
}

/// Lexicographic order on character sequences, as `str`'s `Ord` compares.
pub open spec fn seq_lt(a: Seq<char>, b: Seq<char>) -> bool
    decreases a.len(),
{
    if a.len() == 0 {
        b.len() > 0
    } else if b.len() == 0 {
        false
    } else if a[0] == b[0] {
        seq_lt(a.drop_first(), b.drop_first())
    } else {
        char_lt(a[0], b[0])
    }
}

/// `seq_lt` is a strict total order: irreflexive, asymmetric, total on
/// distinct sequences, and transitive.
pub proof fn lemma_seq_lt_total_order(a: Seq<char>, b: Seq<char>, c: Seq<char>)
    ensures
        !seq_lt(a, a),
        seq_lt(a, b) ==> !seq_lt(b, a),
        a != b ==> seq_lt(a, b) || seq_lt(b, a),
        seq_lt(a, b) && seq_lt(b, c) ==> seq_lt(a, c),
    decreases a.len(),
{
    if a.len() > 0 && b.len() > 0 && c.len() > 0 {
        lemma_seq_lt_total_order(a.drop_first(), b.drop_first(), c.drop_first());
    } else if a.len() > 0 && b.len() > 0 {
        lemma_seq_lt_total_order(a.drop_first(), b.drop_first(), b.drop_first());
    } else if a.len() > 0 {
        lemma_seq_lt_total_order(a.drop_first(), a.drop_first(), a.drop_first());
    }
    if a != b && a.len() > 0 && b.len() > 0 && a[0] == b[0] {
        assert(a.drop_first() != b.drop_first()) by {
            if a.drop_first() == b.drop_first() {
                assert(a =~= seq![a[0]] + a.drop_first());
                assert(b =~= seq![b[0]] + b.drop_first());
            }
        }
    }
    if a != b && a.len() == 0 && b.len() == 0 {
        assert(a =~= b);
    }
    if a.len() > 0 && b.len() > 0 && a[0] != b[0] {
        assert((a[0] as int) != (b[0] as int));
    }
}

/// Three-way comparison of character sequences: `-1`, `0` or `1` as `a` is
/// less than, equal to or greater than `b` lexicographically.
pub fn lex_compare(a: &[char], b: &[char]) -> (r: i8)
    ensures
        r == -1 <==> seq_lt(a@, b@),
        r == 0 <==> a@ == b@,
        r == 1 <==> seq_lt(b@, a@),
        r == -1 || r == 0 || r == 1,
{
    let mut i: usize = 0;
    assert(a@.skip(0) =~= a@);
    assert(b@.skip(0) =~= b@);
    while i < a.len() && i < b.len()
        invariant
            i <= a.len(),
            i <= b.len(),
            a@.subrange(0, i as int) == b@.subrange(0, i as int),
            seq_lt(a@, b@) == seq_lt(a@.skip(i as int), b@.skip(i as int)),
            seq_lt(b@, a@) == seq_lt(b@.skip(i as int), a@.skip(i as int)),
        decreases a.len() - i,
    {
        let x = a[i];
        let y = b[i];
        assert(a@.skip(i as int)[0] == x);
        assert(b@.skip(i as int)[0] == y);
        if x != y {
            proof {
                lemma_seq_lt_total_order(a@, b@, b@);
                if a@ == b@ {
                    assert(a@[i as int] == b@[i as int]);
                }
            }
            if x < y {
                return -1;
            } else {
                return 1;
            }
        }
        assert(a@.skip(i as int).drop_first() =~= a@.skip(i + 1));
        assert(b@.skip(i as int).drop_first() =~= b@.skip(i + 1));
        assert(a@.subrange(0, i + 1) =~= a@.subrange(0, i as int).push(x));
        assert(b@.subrange(0, i + 1) =~= b@.subrange(0, i as int).push(y));
        i = i + 1;
    }
    proof {
        lemma_seq_lt_total_order(a@, b@, b@);
    }
    if a.len() == b.len() {
        assert(a@ =~= a@.subrange(0, i as int));
        assert(b@ =~= b@.subrange(0, i as int));
        0
    } else if i == a.len() {
        assert(a@.skip(i as int).len() == 0);
        -1
    } else {
        assert(b@.skip(i as int).len() == 0);
        1
    }
}

/// Whether `needle` occurs anywhere in the character slice `s`.
pub fn chars_contain(s: &[char], needle: &[char]) -> (r: bool)
    ensures
        r == contains_seq(s@, needle@),
{
    let f = find_from_exec(s, needle, 0);
    proof {
        lemma_find_from_sound(s@, needle@, 0);
    }
    f.is_some()
}

/// Whether some pattern of `pats` occurs in `s`.
pub open spec fn any_contained(s: Seq<char>, pats: Seq<&'static str>) -> bool {
    exists|i: int| 0 <= i < pats.len() && contains_seq(s, (#[trigger] pats[i])@)
}

/// Whether `s` equals some pattern of `pats`.
pub open spec fn any_equal(s: Seq<char>, pats: Seq<&'static str>) -> bool {
    exists|i: int| 0 <= i < pats.len() && s == (#[trigger] pats[i])@
}

/// Whether `s` starts with some pattern of `pats`.
pub open spec fn any_prefix(s: Seq<char>, pats: Seq<&'static str>) -> bool {
    exists|i: int| 0 <= i < pats.len() && starts_with(s, (#[trigger] pats[i])@)
}

/// Whether some pattern of `pats` occurs in `s`.
pub fn contains_any(s: &str, pats: &[&'static str]) -> (r: bool)
    ensures
        r == any_contained(s@, pats@),
{
    let mut i: usize = 0;
    while i < pats.len()
        invariant
            i <= pats@.len(),
            forall|k: int| 0 <= k < i ==> !contains_seq(s@, (#[trigger] pats@[k])@),
        decreases pats@.len() - i,
    {
        if str_contains(s, pats[i]) {
            return true;
        }
        i = i + 1;
    }
    false
}

/// Whether `s` equals some pattern of `pats`.
pub fn equals_any(s: &str, pats: &[&'static str]) -> (r: bool)
    ensures
        r == any_equal(s@, pats@),
{
    let mut i: usize = 0;
    while i < pats.len()
        invariant
            i <= pats@.len(),
            forall|k: int| 0 <= k < i ==> s@ != (#[trigger] pats@[k])@,
        decreases pats@.len() - i,
    {
        if str_eq(s, pats[i]) {
            return true;
        }
        i = i + 1;
    }
    false
}

/// Whether `s` starts with some pattern of `pats`.
pub fn starts_with_any(s: &str, pats: &[&'static str]) -> (r: bool)
    ensures
        r == any_prefix(s@, pats@),
{
    let mut i: usize = 0;
    while i < pats.len()
        invariant
            i <= pats@.len(),
            forall|k: int| 0 <= k < i ==> !starts_with(s@, (#[trigger] pats@[k])@),
        decreases pats@.len() - i,
    {
        if str_starts_with(s, pats[i]) {
            return true;
        }
        i = i + 1;
    }
    false
}

} // verus!
