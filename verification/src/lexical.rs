//! Lexical string operations over character sequences: whitespace trimming,
//! last-occurrence search, and repeated prefix / suffix stripping, each with
//! the meaning of the `str` method of the same name.

use vstd::prelude::*;
use crate::text::{find_from, find_from_exec, lemma_find_from_sound, occurs_at, occurs_at_exec};

verus! {

/// Rust's `char::is_whitespace`: the Unicode White_Space code points.
pub open spec fn is_white(c: char) -> bool {
    let v = c as int;
    (0x09 <= v <= 0x0d) || v == 0x20 || v == 0x85 || v == 0xa0 || v == 0x1680 || (0x2000 <= v
        <= 0x200a) || v == 0x2028 || v == 0x2029 || v == 0x202f || v == 0x205f || v == 0x3000
}

pub fn is_white_exec(c: char) -> (r: bool)
    ensures
        r == is_white(c),
{
    ('\u{9}' <= c && c <= '\u{d}') || c == ' ' || c == '\u{85}' || c == '\u{a0}' || c
        == '\u{1680}' || ('\u{2000}' <= c && c <= '\u{200a}') || c == '\u{2028}' || c
        == '\u{2029}' || c == '\u{202f}' || c == '\u{205f}' || c == '\u{3000}'
}

/// `s` without its leading whitespace.
pub open spec fn trim_start(s: Seq<char>) -> Seq<char>
    decreases s.len(),
{
    if s.len() > 0 && is_white(s[0]) {
        trim_start(s.drop_first())
    } else {
        s
    }
}

/// `s` without its trailing whitespace.
pub open spec fn trim_end(s: Seq<char>) -> Seq<char>
    decreases s.len(),
{
    if s.len() > 0 && is_white(s.last()) {
        trim_end(s.drop_last())
    } else {
        s
    }
}

/// `s` without leading and trailing whitespace (`str::trim`).
pub open spec fn trim(s: Seq<char>) -> Seq<char> {
    trim_end(trim_start(s))
}

/// The last position at or before `k` where `needle` occurs in `s`.
pub open spec fn rfind_upto<A>(s: Seq<A>, needle: Seq<A>, k: int) -> Option<int>
    decreases k + 1,
{
    if k < 0 {
        None
    } else if occurs_at(s, needle, k) {
        Some(k)
    } else {
        rfind_upto(s, needle, k - 1)
    }
}

/// The last occurrence of `needle` in `s`.
pub open spec fn rfind<A>(s: Seq<A>, needle: Seq<A>) -> Option<int> {
    rfind_upto(s, needle, s.len() - needle.len())
}

/// The part of `s` after the last `sep` (all of `s` when there is none):
/// `s.rsplit(sep).next()`.
pub open spec fn after_last(s: Seq<char>, sep: Seq<char>) -> Seq<char> {
    match rfind(s, sep) {
        Some(i) => s.subrange(i + sep.len(), s.len() as int),
        None => s,
    }
}

/// The part of `s` before the first `sep` (all of `s` when there is none):
/// `s.split(sep).next()`.
pub open spec fn before_first(s: Seq<char>, sep: Seq<char>) -> Seq<char> {
    match find_from(s, sep, 0) {
        Some(i) => s.subrange(0, i),
        None => s,
    }
}

/// The split of `s` around the last `sep` (`str::rsplit_once`).
pub open spec fn rsplit_once(s: Seq<char>, sep: Seq<char>) -> Option<(Seq<char>, Seq<char>)> {
    match rfind(s, sep) {
        Some(i) => Some((s.subrange(0, i), s.subrange(i + sep.len(), s.len() as int))),
        None => None,
    }
}

/// `s` with every repetition of the suffix `suf` removed
/// (`str::trim_end_matches`).
pub open spec fn strip_suffix_all(s: Seq<char>, suf: Seq<char>) -> Seq<char>
    decreases s.len(),
{
    if suf.len() > 0 && suf.len() <= s.len() && s.subrange(s.len() - suf.len(), s.len() as int)
        == suf {
        strip_suffix_all(s.subrange(0, s.len() - suf.len()), suf)
    } else {
        s
    }
}

/// `s` with every repetition of the prefix `pre` removed
/// (`str::trim_start_matches`).
pub open spec fn strip_prefix_all(s: Seq<char>, pre: Seq<char>) -> Seq<char>
    decreases s.len(),
{
    if pre.len() > 0 && pre.len() <= s.len() && s.subrange(0, pre.len() as int) == pre {
        strip_prefix_all(s.subrange(pre.len() as int, s.len() as int), pre)
    } else {
        s
    }
}

proof fn lemma_trim_start_skip(s: Seq<char>, i: int)
    requires
        0 <= i < s.len(),
        is_white(s[i]),
    ensures
        trim_start(s.subrange(i, s.len() as int)) == trim_start(s.subrange(i + 1, s.len() as int)),
{
    assert(s.subrange(i, s.len() as int).drop_first() =~= s.subrange(i + 1, s.len() as int));
}

proof fn lemma_trim_end_skip(s: Seq<char>, j: int)
    requires
        0 < j <= s.len(),
        is_white(s[j - 1]),
    ensures
        trim_end(s.subrange(0, j)) == trim_end(s.subrange(0, j - 1)),
{
    assert(s.subrange(0, j).drop_last() =~= s.subrange(0, j - 1));
}

/// A copy of `s[lo..hi]`.
pub fn slice_vec(s: &[char], lo: usize, hi: usize) -> (r: Vec<char>)
    requires
        lo <= hi <= s@.len(),
    ensures
        r@ == s@.subrange(lo as int, hi as int),
{
    let mut r: Vec<char> = Vec::new();
    let mut i = lo;
    while i < hi
        invariant
            lo <= i <= hi <= s@.len(),
            r@ == s@.subrange(lo as int, i as int),
        decreases hi - i,
    {
        r.push(s[i]);
        i = i + 1;
        assert(r@ =~= s@.subrange(lo as int, i as int));
    }
    r
}

/// `str::trim` on a character slice.
pub fn trim_exec(s: &[char]) -> (r: Vec<char>)
    ensures
        r@ == trim(s@),
{
    let n = s.len();
    let mut a: usize = 0;
    assert(s@.subrange(0, n as int) =~= s@);
    while a < n && is_white_exec(s[a])
        invariant
            a <= n == s@.len(),
            trim_start(s@) == trim_start(s@.subrange(a as int, n as int)),
        decreases n - a,
    {
        proof {
            lemma_trim_start_skip(s@, a as int);
        }
        a = a + 1;
    }
    let ghost ts = s@.subrange(a as int, n as int);
    assert(trim_start(s@) == ts);
    let mut b: usize = n;
    assert(ts.subrange(0, (b - a) as int) =~= ts);
    while b > a && is_white_exec(s[b - 1])
        invariant
            a <= b <= n == s@.len(),
            ts == s@.subrange(a as int, n as int),
            trim_end(ts) == trim_end(ts.subrange(0, (b - a) as int)),
        decreases b - a,
    {
        proof {
            lemma_trim_end_skip(ts, (b - a) as int);
        }
        b = b - 1;
    }
    let r = slice_vec(s, a, b);
    assert(r@ =~= ts.subrange(0, (b - a) as int));
    r
}

/// The last occurrence of `needle` in `s`.
pub fn rfind_exec(s: &[char], needle: &[char]) -> (r: Option<usize>)
    ensures
        r matches Some(j) ==> rfind(s@, needle@) == Some(j as int),
        r is None ==> rfind(s@, needle@) is None,
{
    if needle.len() > s.len() {
        return None;
    }
    let mut k: usize = s.len() - needle.len();
    loop
        invariant
            k <= s@.len() - needle@.len(),
            needle@.len() <= s@.len(),
            rfind(s@, needle@) == rfind_upto(s@, needle@, k as int),
        decreases k,
    {
        if occurs_at_exec(s, needle, k) {
            return Some(k);
        }
        if k == 0 {
            assert(rfind_upto(s@, needle@, -1) is None);
            return None;
        }
        k = k - 1;
    }
}

/// `s.rsplit(sep).next()`: the part after the last `sep`.
pub fn after_last_exec(s: &[char], sep: &[char]) -> (r: Vec<char>)
    ensures
        r@ == after_last(s@, sep@),
{
    match rfind_exec(s, sep) {
        Some(i) => {
            proof {
                lemma_rfind_sound(s@, sep@);
            }
            assert(occurs_at(s@, sep@, i as int));
            let n = s.len();
            let m = sep.len();
            assert(i + m <= n);
            slice_vec(s, i + m, n)
        },
        None => slice_vec(s, 0, s.len()),
    }
}

/// `s.split(sep).next()`: the part before the first `sep`.
pub fn before_first_exec(s: &[char], sep: &[char]) -> (r: Vec<char>)
    ensures
        r@ == before_first(s@, sep@),
{
    let f = find_from_exec(s, sep, 0);
    proof {
        lemma_find_from_sound(s@, sep@, 0);
    }
    match f {
        Some(i) => slice_vec(s, 0, i),
        None => slice_vec(s, 0, s.len()),
    }
}

/// What `rfind` returns: an occurrence with none after it.
pub proof fn lemma_rfind_sound<A>(s: Seq<A>, needle: Seq<A>)
    ensures
        rfind(s, needle) matches Some(j) ==> occurs_at(s, needle, j) && forall|k: int|
            j < k ==> !#[trigger] occurs_at(s, needle, k),
        rfind(s, needle) is None ==> forall|k: int| !#[trigger] occurs_at(s, needle, k),
{
    assert forall|m: int| s.len() - needle.len() < m implies !#[trigger] occurs_at(s, needle, m) by {}
    lemma_rfind_upto_sound(s, needle, s.len() - needle.len());
}

proof fn lemma_rfind_upto_sound<A>(s: Seq<A>, needle: Seq<A>, k: int)
    requires
        k <= s.len() - needle.len(),
        forall|m: int| k < m ==> !#[trigger] occurs_at(s, needle, m),
    ensures
        rfind_upto(s, needle, k) matches Some(j) ==> occurs_at(s, needle, j) && 0 <= j <= k
            && forall|m: int| j < m ==> !#[trigger] occurs_at(s, needle, m),
        rfind_upto(s, needle, k) is None ==> forall|m: int| !#[trigger] occurs_at(s, needle, m),
    decreases k + 1,
{
    if k >= 0 && !occurs_at(s, needle, k) {
        lemma_rfind_upto_sound(s, needle, k - 1);
    }
}

/// `s.rsplit_once(sep)`.
pub fn rsplit_once_exec(s: &[char], sep: &[char]) -> (r: Option<(Vec<char>, Vec<char>)>)
    ensures
        match r {
            Some((a, b)) => rsplit_once(s@, sep@) == Some((a@, b@)),
            None => rsplit_once(s@, sep@) is None,
        },
{
    match rfind_exec(s, sep) {
        Some(i) => {
            proof {
                lemma_rfind_sound(s@, sep@);
            }
            assert(occurs_at(s@, sep@, i as int));
            let n = s.len();
            let m = sep.len();
            assert(i + m <= n);
            Some((slice_vec(s, 0, i), slice_vec(s, i + m, n)))
        },
        None => None,
    }
}

/// `s.trim_end_matches(suf)`.
pub fn strip_suffix_all_exec(s: &[char], suf: &[char]) -> (r: Vec<char>)
    ensures
        r@ == strip_suffix_all(s@, suf@),
{
    let mut end = s.len();
    assert(s@.subrange(0, end as int) =~= s@);
    while suf.len() > 0 && suf.len() <= end && occurs_at_exec(s, suf, end - suf.len())
        invariant
            end <= s@.len(),
            strip_suffix_all(s@, suf@) == strip_suffix_all(s@.subrange(0, end as int), suf@),
        decreases end,
    {
        assert(s@.subrange(0, end as int).subrange(end - suf@.len(), end as int) =~= s@.subrange(
            end - suf@.len(),
            end as int,
        ));
        assert(s@.subrange(0, end as int).subrange(0, end - suf@.len()) =~= s@.subrange(
            0,
            end - suf@.len(),
        ));
        end = end - suf.len();
    }
    proof {
        if suf@.len() > 0 && suf@.len() <= end {
            assert(s@.subrange(0, end as int).subrange(end - suf@.len(), end as int) =~= s@.subrange(
                end - suf@.len(),
                end as int,
            ));
        }
    }
    slice_vec(s, 0, end)
}

/// `s.trim_start_matches(pre)`.
pub fn strip_prefix_all_exec(s: &[char], pre: &[char]) -> (r: Vec<char>)
    ensures
        r@ == strip_prefix_all(s@, pre@),
{
    let n = s.len();
    let mut start: usize = 0;
    assert(s@.subrange(0, n as int) =~= s@);
    while pre.len() > 0 && start <= n && pre.len() <= n - start && occurs_at_exec(s, pre, start)
        invariant
            start <= n == s@.len(),
            strip_prefix_all(s@, pre@) == strip_prefix_all(s@.subrange(start as int, n as int), pre@),
        decreases n - start,
    {
        assert(s@.subrange(start as int, n as int).subrange(0, pre@.len() as int) =~= s@.subrange(
            start as int,
            start + pre@.len(),
        ));
        assert(s@.subrange(start as int, n as int).subrange(pre@.len() as int, n - start)
            =~= s@.subrange(start + pre@.len(), n as int));
        start = start + pre.len();
    }
    proof {
        if pre@.len() > 0 && pre@.len() <= n - start {
            assert(s@.subrange(start as int, n as int).subrange(0, pre@.len() as int) =~= s@.subrange(
                start as int,
                start + pre@.len(),
            ));
        }
    }
    slice_vec(s, start, n)
}

/// Whether two character slices are equal.
pub fn chars_eq(a: &[char], b: &[char]) -> (r: bool)
    ensures
        r == (a@ == b@),
{
    if a.len() != b.len() {
        return false;
    }
    let r = occurs_at_exec(a, b, 0);
    assert(a@.subrange(0, b@.len() as int) =~= a@);
    r
}

/// `s` with every `-` replaced by `_` (`str::replace('-', "_")`).
pub open spec fn underscored(s: Seq<char>) -> Seq<char> {
    s.map_values(|c: char| if c == '-' { '_' } else { c })
}

/// `str::replace('-', "_")`.
pub fn underscored_exec(s: &str) -> (r: String)
    ensures
        r@ == underscored(s@),
{
    let cs = crate::text::chars_of(s);
    let mut r = String::new();
    let mut i: usize = 0;
    while i < cs.len()
        invariant
            i <= cs@.len(),
            cs@ == s@,
            r@ == underscored(s@).take(i as int),
        decreases cs@.len() - i,
    {
        let c = cs[i];
        if c == '-' {
            r.push('_');
        } else {
            r.push(c);
        }
        assert(r@ =~= underscored(s@).take(i + 1));
        i = i + 1;
    }
    assert(underscored(s@).take(i as int) =~= underscored(s@));
    r
}

/// The pieces of `s[i..]` between occurrences of `sep`, as `str::split`
/// yields them.
pub open spec fn split_from(s: Seq<char>, sep: Seq<char>, i: int) -> Seq<Seq<char>>
    decreases s.len() + 1 - i,
{
    if i < 0 || i > s.len() || sep.len() == 0 {
        Seq::empty()
    } else {
        match find_from(s, sep, i) {
            Some(j) => {
                proof {
                    lemma_find_from_sound(s, sep, i);
                }
                seq![s.subrange(i, j)] + split_from(s, sep, j + sep.len())
            },
            None => seq![s.subrange(i, s.len() as int)],
        }
    }
}

/// `s.split(sep)`.
pub open spec fn split_seq(s: Seq<char>, sep: Seq<char>) -> Seq<Seq<char>> {
    split_from(s, sep, 0)
}

/// The pieces of `s` between occurrences of the non-empty `sep`.
pub fn split_exec(s: &[char], sep: &[char]) -> (r: Vec<Vec<char>>)
    requires
        sep@.len() > 0,
    ensures
        r@.map_values(|v: Vec<char>| v@) == split_seq(s@, sep@),
{
    let mut out: Vec<Vec<char>> = Vec::new();
    let mut i: usize = 0;
    assert(out@.map_values(|v: Vec<char>| v@) + split_from(s@, sep@, 0) =~= split_seq(s@, sep@));
    loop
        invariant
            i <= s@.len(),
            sep@.len() > 0,
            out@.map_values(|v: Vec<char>| v@) + split_from(s@, sep@, i as int) == split_seq(s@, sep@),
        decreases s@.len() + 1 - i,
    {
        let ghost before = out@.map_values(|v: Vec<char>| v@);
        let f = find_from_exec(s, sep, i);
        proof {
            lemma_find_from_sound(s@, sep@, i as int);
        }
        match f {
            Some(j) => {
                assert(occurs_at(s@, sep@, j as int));
                let piece = slice_vec(s, i, j);
                out.push(piece);
                assert(out@.map_values(|v: Vec<char>| v@) =~= before.push(s@.subrange(i as int, j as int)));
                assert(before + split_from(s@, sep@, i as int) =~= out@.map_values(|v: Vec<char>| v@)
                    + split_from(s@, sep@, j + sep@.len()));
                let sl = s.len();
                assert(j + sep@.len() <= sl);
                i = j + sep.len();
            },
            None => {
                let piece = slice_vec(s, i, s.len());
                out.push(piece);
                assert(out@.map_values(|v: Vec<char>| v@) =~= before.push(s@.subrange(i as int, s@.len() as int)));
                assert(out@.map_values(|v: Vec<char>| v@) =~= split_seq(s@, sep@));
                return out;
            },
        }
    }
}

/// The first position at or after `i` that is not whitespace (or the end).
pub open spec fn skip_white(s: Seq<char>, i: int) -> int
    decreases s.len() - i,
{
    if 0 <= i < s.len() && is_white(s[i]) {
        skip_white(s, i + 1)
    } else {
        i
    }
}

/// The first position at or after `i` that is whitespace (or the end).
pub open spec fn word_end(s: Seq<char>, i: int) -> int
    decreases s.len() - i,
{
    if 0 <= i < s.len() && !is_white(s[i]) {
        word_end(s, i + 1)
    } else {
        i
    }
}

pub proof fn lemma_skip_white_bounds(s: Seq<char>, i: int)
    requires
        0 <= i <= s.len(),
    ensures
        i <= skip_white(s, i) <= s.len(),
        skip_white(s, i) < s.len() ==> !is_white(s[skip_white(s, i)]),
    decreases s.len() - i,
{
    if i < s.len() && is_white(s[i]) {
        lemma_skip_white_bounds(s, i + 1);
    }
}

pub proof fn lemma_word_end_bounds(s: Seq<char>, i: int)
    requires
        0 <= i <= s.len(),
    ensures
        i <= word_end(s, i) <= s.len(),
        i < s.len() && !is_white(s[i]) ==> i < word_end(s, i),
    decreases s.len() - i,
{
    if i < s.len() && !is_white(s[i]) {
        lemma_word_end_bounds(s, i + 1);
    }
}

/// The whitespace-separated words of `s[i..]`, as `str::split_whitespace`
/// yields them.
pub open spec fn words_from(s: Seq<char>, i: int) -> Seq<Seq<char>>
    decreases s.len() - i,
{
    if i < 0 || i > s.len() {
        Seq::empty()
    } else {
        let a = skip_white(s, i);
        proof {
            lemma_skip_white_bounds(s, i);
            lemma_word_end_bounds(s, a);
        }
        if a >= s.len() {
            Seq::empty()
        } else {
            seq![s.subrange(a, word_end(s, a))] + words_from(s, word_end(s, a))
        }
    }
}

/// `s.split_whitespace()`.
pub open spec fn words(s: Seq<char>) -> Seq<Seq<char>> {
    words_from(s, 0)
}

/// The whitespace-separated words of `s`.
pub fn words_exec(s: &[char]) -> (r: Vec<Vec<char>>)
    ensures
        r@.map_values(|v: Vec<char>| v@) == words(s@),
{
    let mut out: Vec<Vec<char>> = Vec::new();
    let mut i: usize = 0;
    assert(out@.map_values(|v: Vec<char>| v@) + words_from(s@, 0) =~= words(s@));
    loop
        invariant
            i <= s@.len(),
            out@.map_values(|v: Vec<char>| v@) + words_from(s@, i as int) == words(s@),
        decreases s@.len() - i,
    {
        let ghost before = out@.map_values(|v: Vec<char>| v@);
        let mut a = i;
        while a < s.len() && is_white_exec(s[a])
            invariant
                i <= a <= s@.len(),
                skip_white(s@, i as int) == skip_white(s@, a as int),
            decreases s@.len() - a,
        {
            a = a + 1;
        }
        proof {
            lemma_skip_white_bounds(s@, i as int);
        }
        if a >= s.len() {
            assert(out@.map_values(|v: Vec<char>| v@) =~= words(s@));
            return out;
        }
        let mut b = a;
        while b < s.len() && !is_white_exec(s[b])
            invariant
                a <= b <= s@.len(),
                word_end(s@, a as int) == word_end(s@, b as int),
            decreases s@.len() - b,
        {
            b = b + 1;
        }
        proof {
            lemma_word_end_bounds(s@, a as int);
        }
        let w = slice_vec(s, a, b);
        out.push(w);
        assert(out@.map_values(|v: Vec<char>| v@) =~= before.push(s@.subrange(a as int, b as int)));
        assert(before + words_from(s@, i as int) =~= out@.map_values(|v: Vec<char>| v@) + words_from(s@, b as int));
        i = b;
    }
}

} // verus!
