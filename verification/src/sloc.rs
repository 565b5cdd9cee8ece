//! Source-lines-of-code counting: strip `#[cfg(test)]` items, block comments
//! and line comments, then count the lines that still hold code.
//!
//! Comment stripping and line counting work on the UTF-8 bytes of the source;
//! a byte is blank when it is one of the whitespace code points below 0x100
//! (each byte is read as the character of the same value).

use vstd::prelude::*;
use vstd::string::StringSliceAdditionalSpecFns;
use crate::text::{chars_of, find_from, find_from_exec, lemma_find_from_is_leftmost, lemma_find_from_sound, occurs_at, push_range};

verus! {

// ---------------------------------------------------------------------------
// Block comments
// ---------------------------------------------------------------------------

/// A `*/` closes at `j`.
pub open spec fn closes_at(s: Seq<u8>, j: int) -> bool {
    0 <= j && j + 1 < s.len() && s[j] == 0x2a && s[j + 1] == 0x2f
}

/// The scan for a block comment's close from `j`: the position just after the
/// first `*/` at or after `j`, or the last position tried when none follows.
pub open spec fn scan_comment_close(s: Seq<u8>, j: int) -> int
    decreases s.len() - j,
{
    if j + 1 < s.len() {
        if closes_at(s, j) {
            j + 2
        } else {
            scan_comment_close(s, j + 1)
        }
    } else {
        j
    }
}

/// Where scanning resumes after a block comment opened at `i`: just after its
/// close; the end of input when the comment is unterminated or when the close
/// leaves fewer than two bytes of input that do not themselves end in `*/`.
pub open spec fn comment_resume(s: Seq<u8>, i: int) -> int {
    let j = scan_comment_close(s, i + 2);
    if j + 1 >= s.len() && !(s.len() >= 2 && s[s.len() - 2] == 0x2a && s[s.len() - 1] == 0x2f) {
        s.len() as int
    } else {
        j
    }
}

pub proof fn lemma_scan_comment_close_advances(s: Seq<u8>, j: int)
    ensures
        scan_comment_close(s, j) >= j,
        j + 1 < s.len() ==> scan_comment_close(s, j) <= s.len(),
    decreases s.len() - j,
{
    if j + 1 < s.len() && !closes_at(s, j) {
        lemma_scan_comment_close_advances(s, j + 1);
    }
}

/// `s[i..]` with every block comment removed.
pub open spec fn strip_block_from(s: Seq<u8>, i: int) -> Seq<u8>
    decreases s.len() - i,
{
    if i < 0 || i >= s.len() {
        Seq::empty()
    } else if i + 1 < s.len() && s[i] == 0x2f && s[i + 1] == 0x2a {
        proof {
            lemma_scan_comment_close_advances(s, i + 2);
        }
        strip_block_from(s, comment_resume(s, i))
    } else {
        seq![s[i]] + strip_block_from(s, i + 1)
    }
}

/// The source with block comments (`/* ... */`) removed.
pub open spec fn strip_block_spec(s: Seq<u8>) -> Seq<u8> {
    strip_block_from(s, 0)
}

fn strip_block_comments(s: &[u8]) -> (r: Vec<u8>)
    ensures
        r@ == strip_block_spec(s@),
{
    let mut out: Vec<u8> = Vec::new();
    let mut i: usize = 0;
    let n = s.len();
    while i < n
        invariant
            n == s@.len(),
            i <= n,
            strip_block_spec(s@) == out@ + strip_block_from(s@, i as int),
        decreases n - i,
    {
        if i + 1 < n && s[i] == 0x2f && s[i + 1] == 0x2a {
            let mut j: usize = i + 2;
            while n >= 2 && j <= n - 2 && !(s[j] == 0x2a && s[j + 1] == 0x2f)
                invariant
                    n == s@.len(),
                    i + 2 <= j <= n,
                    scan_comment_close(s@, i + 2) == scan_comment_close(s@, j as int),
                decreases n - j,
            {
                j = j + 1;
            }
            if n >= 2 && j <= n - 2 {
                j = j + 2;
            }
            if !(n >= 2 && j <= n - 2) && !(n >= 2 && s[n - 2] == 0x2a && s[n - 1] == 0x2f) {
                j = n;
            }
            assert(j == comment_resume(s@, i as int));
            i = j;
        } else {
            proof {
                assert(strip_block_from(s@, i as int) == seq![s@[i as int]] + strip_block_from(
                    s@,
                    i + 1,
                ));
            }
            out.push(s[i]);
            assert(strip_block_spec(s@) =~= out@ + strip_block_from(s@, i + 1));
            i = i + 1;
        }
    }
    assert(out@ + strip_block_from(s@, i as int) =~= out@);
    out
}

// ---------------------------------------------------------------------------
// Line comments
// ---------------------------------------------------------------------------

/// `s[i..]` with each line's text from its first `//` to the line's end
/// removed (the newline itself is kept).
pub open spec fn strip_line_from(s: Seq<u8>, i: int) -> Seq<u8>
    decreases s.len() - i,
{
    if i < 0 || i >= s.len() {
        Seq::empty()
    } else if s[i] == 0x2f && i + 1 < s.len() && s[i + 1] == 0x2f {
        match find_from(s, seq![0x0au8], i) {
            Some(nl) => {
                proof {
                    lemma_find_from_sound(s, seq![0x0au8], i);
                }
                seq![0x0au8] + strip_line_from(s, nl + 1)
            },
            None => Seq::empty(),
        }
    } else {
        seq![s[i]] + strip_line_from(s, i + 1)
    }
}

/// The source with line comments (`// ...`, doc comments included) removed.
pub open spec fn strip_line_spec(s: Seq<u8>) -> Seq<u8> {
    strip_line_from(s, 0)
}

fn find_byte_exec(s: &[u8], from: usize, b: u8) -> (r: Option<usize>)
    requires
        from <= s@.len(),
    ensures
        r matches Some(j) ==> find_from(s@, seq![b], from as int) == Some(j as int),
        r is None ==> find_from(s@, seq![b], from as int) is None,
{
    let mut k: usize = from;
    while k < s.len()
        invariant
            from <= k <= s@.len(),
            find_from(s@, seq![b], from as int) == find_from(s@, seq![b], k as int),
        decreases s.len() - k,
    {
        if s[k] == b {
            assert(s@.subrange(k as int, k + 1) =~= seq![b]);
            return Some(k);
        }
        assert(!(s@.subrange(k as int, k + 1) =~= seq![b])) by {
            assert(s@.subrange(k as int, k + 1)[0] == s@[k as int]);
        }
        k = k + 1;
    }
    None
}

fn strip_line_comments(s: &[u8]) -> (r: Vec<u8>)
    ensures
        r@ == strip_line_spec(s@),
{
    let mut out: Vec<u8> = Vec::new();
    let mut i: usize = 0;
    let n = s.len();
    while i < n
        invariant
            n == s@.len(),
            i <= n,
            strip_line_spec(s@) == out@ + strip_line_from(s@, i as int),
        decreases n - i,
    {
        if s[i] == 0x2f && i + 1 < n && s[i + 1] == 0x2f {
            match find_byte_exec(s, i, 0x0a) {
                Some(nl) => {
                    proof {
                        lemma_find_from_sound(s@, seq![0x0au8], i as int);
                    }
                    out.push(0x0a);
                    assert(strip_line_spec(s@) =~= out@ + strip_line_from(s@, nl + 1));
                    i = nl + 1;
                },
                None => {
                    assert(strip_line_from(s@, i as int) =~= Seq::<u8>::empty());
                    assert(strip_line_spec(s@) =~= out@);
                    return out;
                },
            }
        } else {
            out.push(s[i]);
            assert(strip_line_spec(s@) =~= out@ + strip_line_from(s@, i + 1));
            i = i + 1;
        }
    }
    assert(out@ + strip_line_from(s@, i as int) =~= out@);
    out
}

// ---------------------------------------------------------------------------
// Counting
// ---------------------------------------------------------------------------

/// A byte that, read as the character of the same value, is whitespace.
pub open spec fn is_blank_byte(b: u8) -> bool {
    (0x09 <= b && b <= 0x0d) || b == 0x20 || b == 0x85 || b == 0xa0
}

/// The number of newline-separated lines of `s[i..]` that hold a non-blank
/// byte, where `has` records a non-blank byte already seen on the current line.
pub open spec fn count_code_lines_from(s: Seq<u8>, i: int, has: bool) -> nat
    decreases s.len() - i,
{
    if i < 0 || i >= s.len() {
        if has {
            1
        } else {
            0
        }
    } else if s[i] == 0x0a {
        (if has {
            1nat
        } else {
            0nat
        }) + count_code_lines_from(s, i + 1, false)
    } else {
        count_code_lines_from(s, i + 1, has || !is_blank_byte(s[i]))
    }
}

/// The number of lines of `s` that are not blank.
pub open spec fn count_code_lines(s: Seq<u8>) -> nat {
    count_code_lines_from(s, 0, false)
}

proof fn lemma_count_code_lines_bound(s: Seq<u8>, i: int, has: bool)
    requires
        0 <= i <= s.len(),
    ensures
        count_code_lines_from(s, i, has) <= s.len() - i + 1,
    decreases s.len() - i,
{
    if i < s.len() {
        lemma_count_code_lines_bound(s, i + 1, s[i] != 0x0a && (has || !is_blank_byte(s[i])));
        lemma_count_code_lines_bound(s, i + 1, false);
    }
}

fn count_code_lines_exec(s: &[u8]) -> (r: usize)
    ensures
        r == count_code_lines(s@),
{
    let mut count: usize = 0;
    let mut has = false;
    let mut i: usize = 0;
    let n = s.len();
    while i < n
        invariant
            n == s@.len(),
            i <= n,
            count + (if has { 1int } else { 0int }) <= i,
            count_code_lines(s@) == count + count_code_lines_from(s@, i as int, has),
        decreases n - i,
    {
        if s[i] == 0x0a {
            if has {
                count = count + 1;
            }
            has = false;
        } else {
            let b = s[i];
            let blank = (0x09 <= b && b <= 0x0d) || b == 0x20 || b == 0x85 || b == 0xa0;
            has = has || !blank;
        }
        i = i + 1;
    }
    if has {
        count = count + 1;
    }
    count
}

/// The number of source lines of code in `s`'s bytes: lines that are not
/// blank once block comments and then line comments are removed.
pub open spec fn sloc_of_bytes(s: Seq<u8>) -> nat {
    count_code_lines(strip_line_spec(strip_block_spec(s)))
}

fn count_sloc_bytes(s: &[u8]) -> (r: usize)
    ensures
        r == sloc_of_bytes(s@),
{
    let a = strip_block_comments(s);
    let b = strip_line_comments(&a);
    count_code_lines_exec(&b)
}

/// Counts source lines of code in `src`: the lines that are not blank once
/// block comments and line/doc comments are removed. `//` inside string
/// literals is treated as a comment start.
pub fn compute_sloc(src: &str) -> (r: usize)
    ensures
        r == sloc_of_bytes(src.spec_bytes()),
        r == text_lines(strip_block_spec(src.spec_bytes())).filter(|x: Seq<u8>| line_has_code(x)).len(),
{
    proof {
        lemma_sloc_counts_code_lines(src.spec_bytes());
    }
    count_sloc_bytes(src.as_bytes())
}

// ---------------------------------------------------------------------------
// What block-comment removal does
// ---------------------------------------------------------------------------

/// A `/*` starts at position `i` of `s`.
pub open spec fn opens_at(s: Seq<u8>, i: int) -> bool {
    0 <= i && i + 1 < s.len() && s[i] == 0x2f && s[i + 1] == 0x2a
}

proof fn lemma_strip_block_plain(s: Seq<u8>, i: int, e: int)
    requires
        0 <= i <= e <= s.len(),
        forall|k: int| i <= k < e ==> !opens_at(s, k),
    ensures
        strip_block_from(s, i) == s.subrange(i, e) + strip_block_from(s, e),
    decreases e - i,
{
    if i < e {
        lemma_strip_block_plain(s, i + 1, e);
        assert(!opens_at(s, i));
        assert(strip_block_from(s, i) == seq![s[i]] + strip_block_from(s, i + 1));
        assert(seq![s[i]] + s.subrange(i + 1, e) =~= s.subrange(i, e));
        assert(strip_block_from(s, i) =~= s.subrange(i, e) + strip_block_from(s, e));
    } else {
        assert(s.subrange(i, e) =~= Seq::<u8>::empty());
    }
}

/// Text without a `/*` passes block-comment removal unchanged.
pub proof fn lemma_strip_block_identity_without_opener(s: Seq<u8>)
    requires
        forall|k: int| !opens_at(s, k),
    ensures
        strip_block_spec(s) == s,
{
    lemma_strip_block_plain(s, 0, s.len() as int);
    assert(s.subrange(0, s.len() as int) =~= s);
    assert(strip_block_from(s, s.len() as int) =~= Seq::<u8>::empty());
}

proof fn lemma_scan_comment_close_shift(x: Seq<u8>, q: Seq<u8>, j: int)
    requires
        0 <= j,
    ensures
        scan_comment_close(x + q, x.len() + j) == x.len() + scan_comment_close(q, j),
    decreases q.len() - j,
{
    if j + 1 < q.len() {
        assert((x + q)[x.len() + j] == q[j] && (x + q)[x.len() + j + 1] == q[j + 1]);
        if !closes_at(q, j) {
            lemma_scan_comment_close_shift(x, q, j + 1);
        }
    }
}

proof fn lemma_strip_block_shift(x: Seq<u8>, q: Seq<u8>, i: int)
    requires
        0 <= i <= q.len(),
    ensures
        strip_block_from(x + q, x.len() + i) == strip_block_from(q, i),
    decreases q.len() - i,
{
    let s = x + q;
    let o = x.len() as int;
    if i < q.len() {
        assert(s[o + i] == q[i]);
        if i + 1 < q.len() {
            assert(s[o + i + 1] == q[i + 1]);
        }
        if i + 1 < q.len() && q[i] == 0x2f && q[i + 1] == 0x2a {
            lemma_scan_comment_close_shift(x, q, i + 2);
            lemma_scan_comment_close_advances(q, i + 2);
            assert(s[s.len() - 2] == q[q.len() - 2] && s[s.len() - 1] == q[q.len() - 1]);
            assert(comment_resume(s, o + i) == o + comment_resume(q, i));
            lemma_strip_block_shift(x, q, comment_resume(q, i));
        } else {
            lemma_strip_block_shift(x, q, i + 1);
        }
    }
}

proof fn lemma_scan_to_close(s: Seq<u8>, j: int, c: int)
    requires
        0 <= j <= c,
        c + 1 < s.len(),
        closes_at(s, c),
        forall|k: int| j <= k < c ==> !closes_at(s, k),
    ensures
        scan_comment_close(s, j) == c + 2,
    decreases c - j,
{
    if j < c {
        lemma_scan_to_close(s, j + 1, c);
    }
}

/// A closed block comment is removed whole, and removal goes on past it as
/// on a text of its own: removing the block comments of
/// `p + /* + c + */ + q`, where no `/*` starts in `p`, no `*/` starts in
/// `c`, and at least two bytes follow the comment, gives `p` followed by the
/// removal of `q`'s block comments.
pub proof fn lemma_strip_block_removes_comment(p: Seq<u8>, c: Seq<u8>, q: Seq<u8>)
    requires
        forall|k: int| 0 <= k < p.len() ==> !opens_at(p + seq![0x2fu8, 0x2au8] + c + seq![0x2au8, 0x2fu8] + q, k),
        forall|k: int|
            p.len() + 2 <= k < p.len() + 2 + c.len() ==> !closes_at(
                p + seq![0x2fu8, 0x2au8] + c + seq![0x2au8, 0x2fu8] + q,
                k,
            ),
        q.len() >= 2,
    ensures
        strip_block_spec(p + seq![0x2fu8, 0x2au8] + c + seq![0x2au8, 0x2fu8] + q) == p + strip_block_spec(q),
{
    let x = p + seq![0x2fu8, 0x2au8] + c + seq![0x2au8, 0x2fu8];
    let s = x + q;
    assert(s == p + seq![0x2fu8, 0x2au8] + c + seq![0x2au8, 0x2fu8] + q);
    let pl = p.len() as int;
    let cl = pl + 2 + c.len();
    lemma_strip_block_plain(s, 0, pl);
    assert(s.subrange(0, pl) =~= p);
    assert(s[pl] == 0x2f && s[pl + 1] == 0x2a);
    assert(s[cl] == 0x2a && s[cl + 1] == 0x2f);
    lemma_scan_to_close(s, pl + 2, cl);
    assert(x.len() == cl + 2);
    assert(comment_resume(s, pl) == cl + 2);
    lemma_strip_block_shift(x, q, 0);
}

// ---------------------------------------------------------------------------
// What the count counts
// ---------------------------------------------------------------------------

/// A `//` starts at position `j` of `l`.
pub open spec fn slashes_at(l: Seq<u8>, j: int) -> bool {
    0 <= j && j + 1 < l.len() && l[j] == 0x2f && l[j + 1] == 0x2f
}

/// A byte that is not whitespace when read as the character of the same
/// value: not a tab, line feed, vertical tab, form feed, carriage return,
/// space, next-line or no-break space.
pub open spec fn visible_byte(b: u8) -> bool {
    !(b == 0x09 || b == 0x0a || b == 0x0b || b == 0x0c || b == 0x0d || b == 0x20 || b == 0x85 || b == 0xa0)
}

/// A line holds code: some visible byte comes before the line's first `//`.
pub open spec fn line_has_code(l: Seq<u8>) -> bool {
    exists|k: int|
        0 <= k < l.len() && visible_byte(#[trigger] l[k]) && forall|j: int| 0 <= j <= k ==> !slashes_at(l, j)
}

/// The newline-separated lines of `t[i..]`, the newlines dropped (a text
/// ending in a newline ends with an empty line).
pub open spec fn lines_from(t: Seq<u8>, i: int) -> Seq<Seq<u8>>
    decreases t.len() - i,
{
    if i < 0 || i > t.len() {
        Seq::empty()
    } else {
        match find_from(t, seq![0x0au8], i) {
            None => seq![t.subrange(i, t.len() as int)],
            Some(p) => {
                proof {
                    lemma_find_from_sound(t, seq![0x0au8], i);
                }
                seq![t.subrange(i, p)] + lines_from(t, p + 1)
            },
        }
    }
}

/// The newline-separated lines of `t`.
pub open spec fn text_lines(t: Seq<u8>) -> Seq<Seq<u8>> {
    lines_from(t, 0)
}

/// The first `//` in `t[m..e]`, or `e`.
spec fn comment_cut(t: Seq<u8>, m: int, e: int) -> int
    decreases e - m,
{
    if m >= e {
        e
    } else if slashes_at(t, m) {
        m
    } else {
        comment_cut(t, m + 1, e)
    }
}

proof fn lemma_comment_cut(t: Seq<u8>, m: int, e: int)
    requires
        m <= e,
    ensures
        m <= comment_cut(t, m, e) <= e,
        forall|j: int| m <= j < comment_cut(t, m, e) ==> !slashes_at(t, j),
        comment_cut(t, m, e) < e ==> slashes_at(t, comment_cut(t, m, e)),
    decreases e - m,
{
    if m < e && !slashes_at(t, m) {
        lemma_comment_cut(t, m + 1, e);
    }
}

proof fn lemma_newline_at(t: Seq<u8>, k: int)
    requires
        0 <= k < t.len(),
    ensures
        occurs_at(t, seq![0x0au8], k) <==> t[k] == 0x0a,
{
    if t[k] == 0x0a {
        assert(t.subrange(k, k + 1) =~= seq![0x0au8]);
    }
    if occurs_at(t, seq![0x0au8], k) {
        assert(t.subrange(k, k + 1)[0] == t[k]);
    }
}

proof fn lemma_find_newline_step(t: Seq<u8>, m: int)
    requires
        0 <= m < t.len(),
        t[m] != 0x0a,
    ensures
        find_from(t, seq![0x0au8], m) == find_from(t, seq![0x0au8], m + 1),
{
    lemma_newline_at(t, m);
}

/// Within a line that ends in a newline at `p`: stripping from `m` keeps the
/// line up to its first `//`, then the newline, then the stripped rest.
proof fn lemma_strip_line_to_newline(t: Seq<u8>, m: int, p: int)
    requires
        0 <= m <= p,
        find_from(t, seq![0x0au8], m) == Some(p),
    ensures
        strip_line_from(t, m) == t.subrange(m, comment_cut(t, m, p)) + seq![0x0au8] + strip_line_from(t, p + 1),
    decreases p - m,
{
    lemma_find_from_sound(t, seq![0x0au8], m);
    lemma_newline_at(t, p);
    if m == p {
        assert(t.subrange(m, m) =~= Seq::<u8>::empty());
        assert(strip_line_from(t, m) =~= seq![0x0au8] + strip_line_from(t, p + 1));
    } else {
        lemma_newline_at(t, m);
        if slashes_at(t, m) {
            assert(t.subrange(m, m) =~= Seq::<u8>::empty());
            assert(strip_line_from(t, m) =~= seq![0x0au8] + strip_line_from(t, p + 1));
        } else {
            lemma_find_newline_step(t, m);
            lemma_strip_line_to_newline(t, m + 1, p);
            lemma_comment_cut(t, m + 1, p);
            let c = comment_cut(t, m, p);
            assert(c == comment_cut(t, m + 1, p));
            assert(seq![t[m]] + t.subrange(m + 1, c) =~= t.subrange(m, c));
            assert(strip_line_from(t, m) =~= t.subrange(m, c) + seq![0x0au8] + strip_line_from(t, p + 1));
        }
    }
}

/// On the last line (no newline follows `m`): stripping keeps the line up to
/// its first `//`.
proof fn lemma_strip_last_line(t: Seq<u8>, m: int)
    requires
        0 <= m <= t.len(),
        find_from(t, seq![0x0au8], m) is None,
    ensures
        strip_line_from(t, m) == t.subrange(m, comment_cut(t, m, t.len() as int)),
    decreases t.len() - m,
{
    lemma_find_from_sound(t, seq![0x0au8], m);
    if m == t.len() {
        assert(t.subrange(m, m) =~= Seq::<u8>::empty());
    } else if slashes_at(t, m) {
        assert(t.subrange(m, m) =~= Seq::<u8>::empty());
    } else {
        lemma_newline_at(t, m);
        assert(!occurs_at(t, seq![0x0au8], m));
        lemma_find_newline_step(t, m);
        lemma_strip_last_line(t, m + 1);
        lemma_comment_cut(t, m + 1, t.len() as int);
        let c = comment_cut(t, m, t.len() as int);
        assert(seq![t[m]] + t.subrange(m + 1, c) =~= t.subrange(m, c));
    }
}

proof fn lemma_count_shift(x: Seq<u8>, y: Seq<u8>, j: int, h: bool)
    requires
        0 <= j <= y.len(),
    ensures
        count_code_lines_from(x + y, x.len() + j, h) == count_code_lines_from(y, j, h),
    decreases y.len() - j,
{
    if j < y.len() {
        assert((x + y)[x.len() + j] == y[j]);
        lemma_count_shift(x, y, j + 1, false);
        lemma_count_shift(x, y, j + 1, h || !is_blank_byte(y[j]));
    }
}

/// The count over a newline-free `x` from `i`, followed by a newline and `y`.
proof fn lemma_count_line(x: Seq<u8>, y: Seq<u8>, i: int, h: bool)
    requires
        0 <= i <= x.len(),
        forall|k: int| 0 <= k < x.len() ==> x[k] != 0x0a,
    ensures
        count_code_lines_from(x + seq![0x0au8] + y, i, h) == (if h || exists|k: int|
            i <= k < x.len() && !is_blank_byte(#[trigger] x[k]) {
            1nat
        } else {
            0nat
        }) + count_code_lines_from(y, 0, false),
    decreases x.len() - i,
{
    let z = x + seq![0x0au8] + y;
    if i == x.len() {
        assert(z[i] == 0x0a);
        lemma_count_shift(x + seq![0x0au8], y, 0, false);
        assert(x + seq![0x0au8] + y == (x + seq![0x0au8]) + y);
    } else {
        assert(z[i] == x[i]);
        lemma_count_line(x, y, i + 1, h || !is_blank_byte(x[i]));
    }
}

/// The count over a newline-free `x` from `i`.
proof fn lemma_count_last(x: Seq<u8>, i: int, h: bool)
    requires
        0 <= i <= x.len(),
        forall|k: int| 0 <= k < x.len() ==> x[k] != 0x0a,
    ensures
        count_code_lines_from(x, i, h) == (if h || exists|k: int| i <= k < x.len() && !is_blank_byte(#[trigger] x[k]) {
            1nat
        } else {
            0nat
        }),
    decreases x.len() - i,
{
    if i < x.len() {
        lemma_count_last(x, i + 1, h || !is_blank_byte(x[i]));
    }
}

/// A line `t[i..e]` (ending at a newline or at the end) holds code exactly
/// when a non-blank byte comes before its first `//`.
proof fn lemma_code_before_cut(t: Seq<u8>, i: int, e: int)
    requires
        0 <= i <= e <= t.len(),
        e < t.len() ==> t[e] == 0x0a,
    ensures
        line_has_code(t.subrange(i, e)) <==> exists|k: int|
            i <= k < comment_cut(t, i, e) && !is_blank_byte(#[trigger] t[k]),
{
    lemma_comment_cut(t, i, e);
    let l = t.subrange(i, e);
    let c = comment_cut(t, i, e);
    assert forall|j: int| 0 <= j < l.len() implies slashes_at(l, j) == slashes_at(t, i + j) by {
        if j + 1 < l.len() {
            assert(l[j] == t[i + j] && l[j + 1] == t[i + j + 1]);
        } else if e < t.len() {
            assert(t[i + j + 1] == 0x0a);
        }
    }
    if line_has_code(l) {
        let k = choose|k: int|
            0 <= k < l.len() && !is_blank_byte(#[trigger] l[k]) && forall|j: int| 0 <= j <= k ==> !slashes_at(l, j);
        if i + k >= c {
            assert(slashes_at(l, c - i));
            assert(false);
        }
        assert(l[k] == t[i + k]);
        assert(i <= i + k < c && !is_blank_byte(t[i + k]));
    }
    if exists|k: int| i <= k < c && !is_blank_byte(#[trigger] t[k]) {
        let k = choose|k: int| i <= k < c && !is_blank_byte(#[trigger] t[k]);
        assert(l[k - i] == t[k]);
        assert forall|j: int| 0 <= j <= k - i implies !slashes_at(l, j) by {
            assert(!slashes_at(t, i + j));
        }
        assert(!is_blank_byte(l[k - i]));
    }
}

proof fn lemma_filter_single(l: Seq<u8>, rest: Seq<Seq<u8>>)
    ensures
        (seq![l] + rest).filter(|x: Seq<u8>| line_has_code(x)).len() == (if line_has_code(l) {
            1nat
        } else {
            0nat
        }) + rest.filter(|x: Seq<u8>| line_has_code(x)).len(),
{
    reveal(Seq::filter);
    Seq::filter_distributes_over_add(seq![l], rest, |x: Seq<u8>| line_has_code(x));
    assert(seq![l].drop_last() =~= Seq::<Seq<u8>>::empty());
    assert(Seq::<Seq<u8>>::empty().filter(|x: Seq<u8>| line_has_code(x)) =~= Seq::<Seq<u8>>::empty());
}

#[verifier::rlimit(40)]
proof fn lemma_count_lines_from(t: Seq<u8>, i: int)
    requires
        0 <= i <= t.len(),
    ensures
        count_code_lines_from(strip_line_from(t, i), 0, false) == lines_from(t, i).filter(
            |x: Seq<u8>| line_has_code(x),
        ).len(),
    decreases t.len() - i,
{
    lemma_find_from_sound(t, seq![0x0au8], i);
    match find_from(t, seq![0x0au8], i) {
        Some(p) => {
            lemma_newline_at(t, p);
            lemma_strip_line_to_newline(t, i, p);
            lemma_comment_cut(t, i, p);
            let c = comment_cut(t, i, p);
            let a = t.subrange(i, c);
            assert forall|k: int| 0 <= k < a.len() implies a[k] != 0x0a by {
                lemma_newline_at(t, i + k);
                assert(a[k] == t[i + k]);
            }
            lemma_count_line(a, strip_line_from(t, p + 1), 0, false);
            lemma_count_lines_from(t, p + 1);
            lemma_code_before_cut(t, i, p);
            assert((exists|k: int| 0 <= k < a.len() && !is_blank_byte(#[trigger] a[k])) <==> (exists|k: int|
                i <= k < c && !is_blank_byte(#[trigger] t[k]))) by {
                if exists|k: int| 0 <= k < a.len() && !is_blank_byte(#[trigger] a[k]) {
                    let k = choose|k: int| 0 <= k < a.len() && !is_blank_byte(#[trigger] a[k]);
                    assert(a[k] == t[i + k]);
                }
                if exists|k: int| i <= k < c && !is_blank_byte(#[trigger] t[k]) {
                    let k = choose|k: int| i <= k < c && !is_blank_byte(#[trigger] t[k]);
                    assert(a[k - i] == t[k]);
                }
            }
            lemma_filter_single(t.subrange(i, p), lines_from(t, p + 1));
        },
        None => {
            lemma_strip_last_line(t, i);
            let e = t.len() as int;
            lemma_comment_cut(t, i, e);
            let c = comment_cut(t, i, e);
            let a = t.subrange(i, c);
            assert forall|k: int| 0 <= k < a.len() implies a[k] != 0x0a by {
                lemma_newline_at(t, i + k);
                assert(a[k] == t[i + k]);
            }
            lemma_count_last(a, 0, false);
            lemma_code_before_cut(t, i, e);
            assert((exists|k: int| 0 <= k < a.len() && !is_blank_byte(#[trigger] a[k])) <==> (exists|k: int|
                i <= k < c && !is_blank_byte(#[trigger] t[k]))) by {
                if exists|k: int| 0 <= k < a.len() && !is_blank_byte(#[trigger] a[k]) {
                    let k = choose|k: int| 0 <= k < a.len() && !is_blank_byte(#[trigger] a[k]);
                    assert(a[k] == t[i + k]);
                }
                if exists|k: int| i <= k < c && !is_blank_byte(#[trigger] t[k]) {
                    let k = choose|k: int| i <= k < c && !is_blank_byte(#[trigger] t[k]);
                    assert(a[k - i] == t[k]);
                }
            }
            lemma_filter_single(t.subrange(i, e), Seq::empty());
            assert(seq![t.subrange(i, e)] + Seq::<Seq<u8>>::empty() =~= seq![t.subrange(i, e)]);
            reveal(Seq::filter);
        },
    }
}

/// What the count counts: the source lines of code are the newline-separated
/// lines of the text with its block comments removed that hold a non-blank
/// byte before their first `//`. A line comment never merges two lines.
pub proof fn lemma_sloc_counts_code_lines(s: Seq<u8>)
    ensures
        sloc_of_bytes(s) == text_lines(strip_block_spec(s)).filter(|x: Seq<u8>| line_has_code(x)).len(),
{
    lemma_count_lines_from(strip_block_spec(s), 0);
}

// ---------------------------------------------------------------------------
// `#[cfg(test)]` items
// ---------------------------------------------------------------------------

/// The attribute whose items are stripped.
pub open spec fn cfg_test_marker() -> Seq<char> {
    seq!['#', '[', 'c', 'f', 'g', '(', 't', 'e', 's', 't', ')', ']']
}

/// The whitespace skipped between attributes.
pub open spec fn is_attr_space(c: char) -> bool {
    c == ' ' || c == '\t' || c == '\n' || c == '\r'
}

/// The first position at or after `j` that is not attribute whitespace.
pub open spec fn skip_space(s: Seq<char>, j: int) -> int
    decreases s.len() - j,
{
    if 0 <= j < s.len() && is_attr_space(s[j]) {
        skip_space(s, j + 1)
    } else {
        j
    }
}

/// Bracket matching from `k` with `depth` unmatched openers: the position
/// just after the closer that brings the depth to zero, or the end of input.
pub open spec fn scan_close(s: Seq<char>, k: int, depth: int, open: char, close: char) -> int
    decreases s.len() - k,
{
    if k < 0 || k >= s.len() {
        k
    } else if s[k] == open {
        scan_close(s, k + 1, depth + 1, open, close)
    } else if s[k] == close {
        if depth - 1 == 0 {
            k + 1
        } else {
            scan_close(s, k + 1, depth - 1, open, close)
        }
    } else {
        scan_close(s, k + 1, depth, open, close)
    }
}

pub proof fn lemma_skip_space_bounds(s: Seq<char>, j: int)
    requires
        0 <= j <= s.len(),
    ensures
        j <= skip_space(s, j) <= s.len(),
    decreases s.len() - j,
{
    if 0 <= j < s.len() && is_attr_space(s[j]) {
        lemma_skip_space_bounds(s, j + 1);
    }
}

pub proof fn lemma_scan_close_bounds(s: Seq<char>, k: int, depth: int, open: char, close: char)
    requires
        0 <= k < s.len(),
    ensures
        k + 1 <= scan_close(s, k, depth, open, close) <= s.len(),
    decreases s.len() - k,
{
    if k + 1 < s.len() {
        lemma_scan_close_bounds(s, k + 1, depth + 1, open, close);
        lemma_scan_close_bounds(s, k + 1, depth - 1, open, close);
        lemma_scan_close_bounds(s, k + 1, depth, open, close);
    } else {
        assert(scan_close(s, k + 1, depth + 1, open, close) == k + 1);
        assert(scan_close(s, k + 1, depth - 1, open, close) == k + 1);
        assert(scan_close(s, k + 1, depth, open, close) == k + 1);
    }
}

/// The first position at or after `j` past any whitespace and `#[...]`
/// attributes.
pub open spec fn skip_attrs(s: Seq<char>, j: int) -> int
    decreases s.len() - j,
{
    if j < 0 || j > s.len() {
        j
    } else {
        let w = skip_space(s, j);
        if w < s.len() && w + 1 < s.len() && s[w] == '#' && s[w + 1] == '[' {
            proof {
                lemma_skip_space_bounds(s, j);
                lemma_scan_close_bounds(s, w, 0, '[', ']');
            }
            skip_attrs(s, scan_close(s, w, 0, '[', ']'))
        } else {
            w
        }
    }
}

pub proof fn lemma_skip_attrs_bounds(s: Seq<char>, j: int)
    requires
        0 <= j <= s.len(),
    ensures
        j <= skip_attrs(s, j) <= s.len(),
    decreases s.len() - j,
{
    lemma_skip_space_bounds(s, j);
    let w = skip_space(s, j);
    if w + 1 < s.len() && s[w] == '#' && s[w + 1] == '[' {
        lemma_scan_close_bounds(s, w, 0, '[', ']');
        lemma_skip_attrs_bounds(s, scan_close(s, w, 0, '[', ']'));
    }
}

/// `s[i..]` with each `#[cfg(test)]` item removed: the marker, any further
/// attributes, and the item up to its `;` (when a `;` comes before the first
/// `{`) or through its brace-matched body. When neither `{` nor `;` follows a
/// marker, the rest of the input is dropped.
pub open spec fn strip_cfg_from(s: Seq<char>, i: int) -> Seq<char>
    decreases s.len() - i,
{
    if i < 0 || i > s.len() {
        Seq::empty()
    } else {
        match find_from(s, cfg_test_marker(), i) {
            None => s.subrange(i, s.len() as int),
            Some(idx) => {
                proof {
                    lemma_find_from_sound(s, cfg_test_marker(), i);
                    lemma_skip_attrs_bounds(s, idx + 12);
                }
                let j = skip_attrs(s, idx + 12);
                let brace = find_from(s, seq!['{'], j);
                let semi = find_from(s, seq![';'], j);
                proof {
                    lemma_find_from_sound(s, seq!['{'], j);
                    lemma_find_from_sound(s, seq![';'], j);
                }
                s.subrange(i, idx) + match (brace, semi) {
                    (None, None) => Seq::empty(),
                    (None, Some(sm)) => strip_cfg_from(s, sm + 1),
                    (Some(b), Some(sm)) => if b > sm {
                        strip_cfg_from(s, sm + 1)
                    } else {
                        proof {
                            lemma_scan_close_bounds(s, b, 0, '{', '}');
                        }
                        strip_cfg_from(s, scan_close(s, b, 0, '{', '}'))
                    },
                    (Some(b), None) => {
                        proof {
                            lemma_scan_close_bounds(s, b, 0, '{', '}');
                        }
                        strip_cfg_from(s, scan_close(s, b, 0, '{', '}'))
                    },
                }
            },
        }
    }
}

/// The source with its `#[cfg(test)]` items removed.
pub open spec fn strip_cfg_spec(s: Seq<char>) -> Seq<char> {
    strip_cfg_from(s, 0)
}

fn skip_space_exec(s: &[char], j0: usize) -> (r: usize)
    requires
        j0 <= s@.len(),
    ensures
        r == skip_space(s@, j0 as int),
{
    let mut j = j0;
    while j < s.len() && (s[j] == ' ' || s[j] == '\t' || s[j] == '\n' || s[j] == '\r')
        invariant
            j0 <= j <= s@.len(),
            skip_space(s@, j0 as int) == skip_space(s@, j as int),
        decreases s@.len() - j,
    {
        j = j + 1;
    }
    j
}

fn scan_close_exec(s: &[char], k0: usize, open: char, close: char) -> (r: usize)
    requires
        k0 <= s@.len(),
    ensures
        r == scan_close(s@, k0 as int, 0, open, close),
{
    let mut k = k0;
    let mut opens: usize = 0;
    let mut closes: usize = 0;
    while k < s.len()
        invariant
            k0 <= k <= s@.len(),
            opens + closes <= k - k0,
            scan_close(s@, k0 as int, 0, open, close) == scan_close(
                s@,
                k as int,
                opens - closes,
                open,
                close,
            ),
        decreases s@.len() - k,
    {
        if s[k] == open {
            opens = opens + 1;
        } else if s[k] == close {
            if opens == closes + 1 {
                return k + 1;
            }
            closes = closes + 1;
        }
        k = k + 1;
    }
    k
}

fn skip_attrs_exec(s: &[char], j0: usize) -> (r: usize)
    requires
        j0 <= s@.len(),
    ensures
        r == skip_attrs(s@, j0 as int),
{
    let mut j = j0;
    loop
        invariant
            j0 <= j <= s@.len(),
            skip_attrs(s@, j0 as int) == skip_attrs(s@, j as int),
        decreases s@.len() - j,
    {
        let w = skip_space_exec(s, j);
        proof {
            lemma_skip_space_bounds(s@, j as int);
        }
        if w < s.len() && w + 1 < s.len() && s[w] == '#' && s[w + 1] == '[' {
            proof {
                lemma_scan_close_bounds(s@, w as int, 0, '[', ']');
            }
            j = scan_close_exec(s, w, '[', ']');
        } else {
            return w;
        }
    }
}

/// Removes inline `#[cfg(test)] <item>` regions from rust source text: the
/// marker, any following attributes, and the item through its `;` or its
/// brace-matched body. String and comment context is not honored, and only
/// the bare `#[cfg(test)]` form is recognised.
pub fn strip_cfg_test(src: &str) -> (r: String)
    ensures
        r@ == strip_cfg_spec(src@),
{
    let cs = chars_of(src);
    let n = cs.len();
    let needle = vec!['#', '[', 'c', 'f', 'g', '(', 't', 'e', 's', 't', ')', ']'];
    let open_brace = vec!['{'];
    let semicolon = vec![';'];
    assert(needle@ =~= cfg_test_marker());
    assert(open_brace@ =~= seq!['{']);
    assert(semicolon@ =~= seq![';']);
    let mut out = String::new();
    let mut i: usize = 0;
    loop
        invariant
            n == cs@.len(),
            cs@ == src@,
            needle@ == cfg_test_marker(),
            open_brace@ == seq!['{'],
            semicolon@ == seq![';'],
            i <= n,
            strip_cfg_spec(cs@) == out@ + strip_cfg_from(cs@, i as int),
        decreases n - i,
    {
        let found = find_from_exec(&cs, &needle, i);
        proof {
            lemma_find_from_sound(cs@, needle@, i as int);
        }
        match found {
            None => {
                push_range(&mut out, &cs, i, n);
                return out;
            },
            Some(idx) => {
                assert(occurs_at(cs@, needle@, idx as int));
                push_range(&mut out, &cs, i, idx);
                proof {
                    lemma_skip_attrs_bounds(cs@, idx + 12);
                }
                let j = skip_attrs_exec(&cs, idx + 12);
                let brace = find_from_exec(&cs, &open_brace, j);
                let semi = find_from_exec(&cs, &semicolon, j);
                proof {
                    lemma_find_from_sound(cs@, open_brace@, j as int);
                    lemma_find_from_sound(cs@, semicolon@, j as int);
                }
                let ghost prefix = out@;
                match (brace, semi) {
                    (None, None) => {
                        assert(strip_cfg_spec(cs@) =~= out@);
                        return out;
                    },
                    (None, Some(sm)) => {
                        assert(occurs_at(cs@, semicolon@, sm as int));
                        i = sm + 1;
                    },
                    (Some(b), Some(sm)) => {
                        assert(occurs_at(cs@, semicolon@, sm as int));
                        assert(occurs_at(cs@, open_brace@, b as int));
                        if b > sm {
                            i = sm + 1;
                        } else {
                            proof {
                                lemma_scan_close_bounds(cs@, b as int, 0, '{', '}');
                            }
                            i = scan_close_exec(&cs, b, '{', '}');
                        }
                    },
                    (Some(b), None) => {
                        assert(occurs_at(cs@, open_brace@, b as int));
                        proof {
                            lemma_scan_close_bounds(cs@, b as int, 0, '{', '}');
                        }
                        i = scan_close_exec(&cs, b, '{', '}');
                    },
                }
                assert(strip_cfg_spec(cs@) =~= out@ + strip_cfg_from(cs@, i as int));
            },
        }
    }
}

/// Text without the `#[cfg(test)]` marker passes through unchanged.
pub proof fn lemma_strip_cfg_identity_without_marker(s: Seq<char>)
    requires
        forall|k: int| !occurs_at(s, cfg_test_marker(), k),
    ensures
        strip_cfg_spec(s) == s,
{
    assert(find_from(s, cfg_test_marker(), 0) is None) by {
        lemma_find_from_sound(s, cfg_test_marker(), 0);
        if let Some(j) = find_from(s, cfg_test_marker(), 0) {
            assert(occurs_at(s, cfg_test_marker(), j));
        }
    }
    assert(s.subrange(0, s.len() as int) =~= s);
}

// ---------------------------------------------------------------------------
// What stripping `#[cfg(test)]` items does
// ---------------------------------------------------------------------------

proof fn lemma_find_shift<A>(x: Seq<A>, q: Seq<A>, n: Seq<A>, i: int)
    requires
        0 <= i,
    ensures
        find_from(x + q, n, x.len() + i) == match find_from(q, n, i) {
            Some(j) => Some(j + x.len()),
            None => None,
        },
    decreases q.len() + 1 - i,
{
    let s = x + q;
    let o = x.len() as int;
    if !(i > q.len() || i + n.len() > q.len()) {
        assert(s.subrange(o + i, o + i + n.len()) =~= q.subrange(i, i + n.len()));
        if !occurs_at(q, n, i) {
            lemma_find_shift(x, q, n, i + 1);
        }
    }
}

proof fn lemma_skip_space_shift(x: Seq<char>, q: Seq<char>, j: int)
    requires
        0 <= j <= q.len(),
    ensures
        skip_space(x + q, x.len() + j) == x.len() + skip_space(q, j),
    decreases q.len() - j,
{
    if j < q.len() {
        assert((x + q)[x.len() + j] == q[j]);
        if is_attr_space(q[j]) {
            lemma_skip_space_shift(x, q, j + 1);
        }
    }
}

proof fn lemma_scan_close_shift(x: Seq<char>, q: Seq<char>, k: int, depth: int, open: char, close: char)
    requires
        0 <= k,
    ensures
        scan_close(x + q, x.len() + k, depth, open, close) == x.len() + scan_close(q, k, depth, open, close),
    decreases q.len() - k,
{
    if k < q.len() {
        assert((x + q)[x.len() + k] == q[k]);
        lemma_scan_close_shift(x, q, k + 1, depth + 1, open, close);
        lemma_scan_close_shift(x, q, k + 1, depth - 1, open, close);
        lemma_scan_close_shift(x, q, k + 1, depth, open, close);
    }
}

proof fn lemma_skip_attrs_shift(x: Seq<char>, q: Seq<char>, j: int)
    requires
        0 <= j <= q.len(),
    ensures
        skip_attrs(x + q, x.len() + j) == x.len() + skip_attrs(q, j),
    decreases q.len() - j,
{
    let s = x + q;
    let o = x.len() as int;
    lemma_skip_space_shift(x, q, j);
    lemma_skip_space_bounds(q, j);
    let w = skip_space(q, j);
    if w + 1 < q.len() {
        assert(s[o + w] == q[w] && s[o + w + 1] == q[w + 1]);
    }
    if w + 1 < q.len() && q[w] == '#' && q[w + 1] == '[' {
        lemma_scan_close_shift(x, q, w, 0, '[', ']');
        lemma_scan_close_bounds(q, w, 0, '[', ']');
        lemma_skip_attrs_shift(x, q, scan_close(q, w, 0, '[', ']'));
    }
}

#[verifier::rlimit(40)]
proof fn lemma_strip_cfg_shift(x: Seq<char>, q: Seq<char>, i: int)
    requires
        0 <= i <= q.len(),
    ensures
        strip_cfg_from(x + q, x.len() + i) == strip_cfg_from(q, i),
    decreases q.len() - i,
{
    let s = x + q;
    let o = x.len() as int;
    lemma_find_shift(x, q, cfg_test_marker(), i);
    lemma_find_from_sound(q, cfg_test_marker(), i);
    match find_from(q, cfg_test_marker(), i) {
        None => {
            assert(s.subrange(o + i, s.len() as int) =~= q.subrange(i, q.len() as int));
        },
        Some(idx) => {
            assert(s.subrange(o + i, o + idx) =~= q.subrange(i, idx));
            lemma_skip_attrs_bounds(q, idx + 12);
            lemma_skip_attrs_shift(x, q, idx + 12);
            let j = skip_attrs(q, idx + 12);
            lemma_find_shift(x, q, seq!['{'], j);
            lemma_find_shift(x, q, seq![';'], j);
            lemma_find_from_sound(q, seq!['{'], j);
            lemma_find_from_sound(q, seq![';'], j);
            match (find_from(q, seq!['{'], j), find_from(q, seq![';'], j)) {
                (None, None) => {},
                (None, Some(sm)) => {
                    lemma_strip_cfg_shift(x, q, sm + 1);
                },
                (Some(b), Some(sm)) => {
                    if b > sm {
                        lemma_strip_cfg_shift(x, q, sm + 1);
                    } else {
                        lemma_scan_close_bounds(q, b, 0, '{', '}');
                        lemma_scan_close_shift(x, q, b, 0, '{', '}');
                        lemma_strip_cfg_shift(x, q, scan_close(q, b, 0, '{', '}'));
                    }
                },
                (Some(b), None) => {
                    lemma_scan_close_bounds(q, b, 0, '{', '}');
                    lemma_scan_close_shift(x, q, b, 0, '{', '}');
                    lemma_strip_cfg_shift(x, q, scan_close(q, b, 0, '{', '}'));
                },
            }
        },
    }
}

/// The `{` count minus the `}` count of `x`.
pub open spec fn brace_depth(x: Seq<char>) -> int
    decreases x.len(),
{
    if x.len() == 0 {
        0
    } else {
        brace_depth(x.drop_last()) + if x.last() == '{' {
            1int
        } else if x.last() == '}' {
            -1int
        } else {
            0int
        }
    }
}

/// `x` has balanced braces: as many `}` as `{`, and no prefix with more `}`
/// than `{`.
pub open spec fn braces_balanced(x: Seq<char>) -> bool {
    brace_depth(x) == 0 && forall|k: int| 0 <= k <= x.len() ==> brace_depth(#[trigger] x.take(k)) >= 0
}

proof fn lemma_scan_body(s: Seq<char>, b: int, body: Seq<char>, k: int)
    requires
        0 <= b,
        b + body.len() + 2 <= s.len(),
        s.subrange(b + 1, b + 1 + body.len()) == body,
        s[b + 1 + body.len()] == '}',
        braces_balanced(body),
        0 <= k <= body.len(),
    ensures
        scan_close(s, b + 1 + k, 1 + brace_depth(body.take(k)), '{', '}') == b + body.len() + 2,
    decreases body.len() - k,
{
    let pos = b + 1 + k;
    if k == body.len() {
        assert(body.take(k) =~= body);
    } else {
        assert(s[pos] == body[k]) by {
            assert(s.subrange(b + 1, b + 1 + body.len())[k] == s[pos]);
        }
        assert(body.take(k + 1).drop_last() =~= body.take(k));
        assert(body.take(k + 1).last() == body[k]);
        assert(brace_depth(body.take(k + 1)) >= 0);
        lemma_scan_body(s, b, body, k + 1);
    }
}

/// A `#[cfg(test)]` item whose body's braces balance is removed whole, and
/// stripping goes on past it as on a text of its own: stripping
/// `p + #[cfg(test)] + h + { body } + q`, where `p` holds no marker, `h`
/// holds no `#`, `{` or `;`, gives `p` followed by the stripping of `q`.
#[verifier::rlimit(40)]
pub proof fn lemma_strip_cfg_removes_item(p: Seq<char>, h: Seq<char>, body: Seq<char>, q: Seq<char>)
    requires
        forall|k: int|
            0 <= k < p.len() ==> !occurs_at(
                p + cfg_test_marker() + h + seq!['{'] + body + seq!['}'] + q,
                cfg_test_marker(),
                k,
            ),
        forall|k: int| 0 <= k < h.len() ==> h[k] != '#' && h[k] != '{' && h[k] != ';',
        braces_balanced(body),
    ensures
        strip_cfg_spec(p + cfg_test_marker() + h + seq!['{'] + body + seq!['}'] + q) == p + strip_cfg_spec(q),
{
    let m = cfg_test_marker();
    let item = p + m + h + seq!['{'] + body + seq!['}'];
    let s = item + q;
    assert(s == p + m + h + seq!['{'] + body + seq!['}'] + q);
    let pl = p.len() as int;
    let h0 = pl + 12;
    let bb = h0 + h.len();
    let e = bb + body.len() + 2;
    assert(item.len() == e);
    assert(s.subrange(pl, pl + 12) =~= m);
    lemma_find_from_is_leftmost(s, m, 0, pl);
    assert(s.subrange(0, pl) =~= p);
    assert(s[bb] == '{');
    assert forall|k: int| h0 <= k < bb implies s[k] == h[k - h0] by {}
    // skip_space from the end of the marker stops within `h` or at the brace
    assert forall|j: int| h0 <= j <= bb implies h0 <= skip_space(s, j) <= bb && (skip_space(s, j) < bb ==> s[
        skip_space(s, j)] == h[skip_space(s, j) - h0]) by {
        lemma_skip_space_upto(s, j, bb);
    }
    let w = skip_space(s, h0);
    assert(skip_attrs(s, h0) == w) by {
        if w < bb {
            assert(s[w] != '#');
        }
    }
    // the brace is the first `{` and comes before any `;`
    assert forall|k: int| w <= k < bb implies !occurs_at(s, seq!['{'], k) by {
        if occurs_at(s, seq!['{'], k) {
            assert(s.subrange(k, k + 1)[0] == s[k]);
        }
    }
    assert(s.subrange(bb, bb + 1) =~= seq!['{']);
    lemma_find_from_is_leftmost(s, seq!['{'], w, bb);
    lemma_find_from_sound(s, seq![';'], w);
    if let Some(sm) = find_from(s, seq![';'], w) {
        if sm <= bb {
            assert(s.subrange(sm, sm + 1)[0] == s[sm]);
            assert(false);
        }
    }
    // the item closes at its last brace
    assert(s.subrange(bb + 1, bb + 1 + body.len()) =~= body);
    assert(s[bb + 1 + body.len()] == '}');
    lemma_scan_body(s, bb, body, 0);
    assert(body.take(0) =~= Seq::<char>::empty());
    assert(scan_close(s, bb, 0, '{', '}') == e);
    lemma_strip_cfg_shift(item, q, 0);
    assert(strip_cfg_from(s, 0) == p + strip_cfg_from(s, e));
}

/// A `#[cfg(test)]` item that ends at a `;` before any `{` is removed
/// through the `;`: stripping `p + #[cfg(test)] + h + ; + q`, where `p`
/// holds no marker and `h` holds no `#`, `{` or `;`, gives `p` followed by
/// the stripping of `q`.
#[verifier::rlimit(40)]
pub proof fn lemma_strip_cfg_removes_declaration(p: Seq<char>, h: Seq<char>, q: Seq<char>)
    requires
        forall|k: int|
            0 <= k < p.len() ==> !occurs_at(p + cfg_test_marker() + h + seq![';'] + q, cfg_test_marker(), k),
        forall|k: int| 0 <= k < h.len() ==> h[k] != '#' && h[k] != '{' && h[k] != ';',
    ensures
        strip_cfg_spec(p + cfg_test_marker() + h + seq![';'] + q) == p + strip_cfg_spec(q),
{
    let m = cfg_test_marker();
    let item = p + m + h + seq![';'];
    let s = item + q;
    assert(s == p + m + h + seq![';'] + q);
    let pl = p.len() as int;
    let h0 = pl + 12;
    let sc = h0 + h.len();
    let e = sc + 1;
    assert(item.len() == e);
    assert(s.subrange(pl, pl + 12) =~= m);
    lemma_find_from_is_leftmost(s, m, 0, pl);
    assert(s.subrange(0, pl) =~= p);
    assert(s[sc] == ';');
    assert forall|k: int| h0 <= k < sc implies s[k] == h[k - h0] by {}
    assert forall|j: int| h0 <= j <= sc implies h0 <= skip_space(s, j) <= sc && (skip_space(s, j) < sc ==> s[
        skip_space(s, j)] == h[skip_space(s, j) - h0]) by {
        lemma_skip_space_upto(s, j, sc);
    }
    let w = skip_space(s, h0);
    assert(skip_attrs(s, h0) == w) by {
        if w < sc {
            assert(s[w] != '#');
        }
    }
    assert forall|k: int| w <= k < sc implies !occurs_at(s, seq![';'], k) by {
        if occurs_at(s, seq![';'], k) {
            assert(s.subrange(k, k + 1)[0] == s[k]);
        }
    }
    assert(s.subrange(sc, sc + 1) =~= seq![';']);
    lemma_find_from_is_leftmost(s, seq![';'], w, sc);
    lemma_find_from_sound(s, seq!['{'], w);
    if let Some(b) = find_from(s, seq!['{'], w) {
        if b <= sc {
            assert(s.subrange(b, b + 1)[0] == s[b]);
            assert(false);
        }
    }
    lemma_strip_cfg_shift(item, q, 0);
    assert(strip_cfg_from(s, 0) == p + strip_cfg_from(s, e));
}

proof fn lemma_scan_bracket_plain(s: Seq<char>, k: int, e: int)
    requires
        1 <= k <= e < s.len(),
        s[e] == ']',
        forall|j: int| k <= j < e ==> s[j] != '[' && s[j] != ']',
    ensures
        scan_close(s, k, 1, '[', ']') == e + 1,
    decreases e - k,
{
    if k < e {
        lemma_scan_bracket_plain(s, k + 1, e);
    }
}

/// Further attributes after the marker go with the item: stripping
/// `p + #[cfg(test)] + w + #[ + a + ] + h + { body } + q`, where `p` holds no
/// marker, `w` is whitespace, `a` holds no `[` or `]`, and `h` holds no `#`,
/// `{` or `;`, gives `p` followed by the stripping of `q`.
#[verifier::rlimit(40)]
pub proof fn lemma_strip_cfg_removes_attributed_item(
    p: Seq<char>,
    w: Seq<char>,
    a: Seq<char>,
    h: Seq<char>,
    body: Seq<char>,
    q: Seq<char>,
)
    requires
        forall|k: int|
            0 <= k < p.len() ==> !occurs_at(
                p + cfg_test_marker() + w + seq!['#', '['] + a + seq![']'] + h + seq!['{'] + body + seq!['}'] + q,
                cfg_test_marker(),
                k,
            ),
        forall|k: int| 0 <= k < w.len() ==> is_attr_space(w[k]),
        forall|k: int| 0 <= k < a.len() ==> a[k] != '[' && a[k] != ']',
        forall|k: int| 0 <= k < h.len() ==> h[k] != '#' && h[k] != '{' && h[k] != ';',
        braces_balanced(body),
    ensures
        strip_cfg_spec(p + cfg_test_marker() + w + seq!['#', '['] + a + seq![']'] + h + seq!['{'] + body + seq!['}'] + q)
            == p + strip_cfg_spec(q),
{
    let m = cfg_test_marker();
    let item = p + m + w + seq!['#', '['] + a + seq![']'] + h + seq!['{'] + body + seq!['}'];
    let s = item + q;
    assert(s == p + m + w + seq!['#', '['] + a + seq![']'] + h + seq!['{'] + body + seq!['}'] + q);
    let pl = p.len() as int;
    let w0 = pl + 12;
    let at = w0 + w.len();
    let a0 = at + 2;
    let rb = a0 + a.len();
    let h0 = rb + 1;
    let bb = h0 + h.len();
    let e = bb + body.len() + 2;
    assert(item.len() == e);
    assert(s.subrange(pl, pl + 12) =~= m);
    lemma_find_from_is_leftmost(s, m, 0, pl);
    assert(s.subrange(0, pl) =~= p);
    // whitespace up to the attribute
    assert forall|k: int| w0 <= k < at implies s[k] == w[k - w0] by {}
    assert(s[at] == '#' && s[at + 1] == '[');
    assert(skip_space(s, w0) == at) by {
        assert forall|j: int| w0 <= j <= at implies skip_space(s, j) == at by {
            lemma_skip_space_run(s, j, at);
        }
    }
    // the attribute closes at its `]`
    assert forall|k: int| a0 <= k < rb implies s[k] == a[k - a0] by {}
    assert(s[rb] == ']');
    lemma_scan_bracket_plain(s, at + 2, rb);
    assert(s[at + 1] == '[');
    assert(scan_close(s, at + 1, 0, '[', ']') == rb + 1);
    assert(scan_close(s, at, 0, '[', ']') == h0);
    // then `h` and the brace, as for an item without attributes
    assert(s[bb] == '{');
    assert forall|k: int| h0 <= k < bb implies s[k] == h[k - h0] by {}
    assert forall|j: int| h0 <= j <= bb implies h0 <= skip_space(s, j) <= bb && (skip_space(s, j) < bb ==> s[
        skip_space(s, j)] == h[skip_space(s, j) - h0]) by {
        lemma_skip_space_upto(s, j, bb);
    }
    let ww = skip_space(s, h0);
    assert(skip_attrs(s, h0) == ww) by {
        if ww < bb {
            assert(s[ww] != '#');
        }
    }
    assert(skip_attrs(s, w0) == ww);
    assert forall|k: int| ww <= k < bb implies !occurs_at(s, seq!['{'], k) by {
        if occurs_at(s, seq!['{'], k) {
            assert(s.subrange(k, k + 1)[0] == s[k]);
        }
    }
    assert(s.subrange(bb, bb + 1) =~= seq!['{']);
    lemma_find_from_is_leftmost(s, seq!['{'], ww, bb);
    lemma_find_from_sound(s, seq![';'], ww);
    if let Some(sm) = find_from(s, seq![';'], ww) {
        if sm <= bb {
            assert(s.subrange(sm, sm + 1)[0] == s[sm]);
            assert(false);
        }
    }
    assert(s.subrange(bb + 1, bb + 1 + body.len()) =~= body);
    assert(s[bb + 1 + body.len()] == '}');
    lemma_scan_body(s, bb, body, 0);
    assert(body.take(0) =~= Seq::<char>::empty());
    assert(scan_close(s, bb, 0, '{', '}') == e);
    lemma_strip_cfg_shift(item, q, 0);
    assert(strip_cfg_from(s, 0) == p + strip_cfg_from(s, e));
}

proof fn lemma_skip_space_run(s: Seq<char>, j: int, b: int)
    requires
        0 <= j <= b < s.len(),
        !is_attr_space(s[b]),
        forall|k: int| j <= k < b ==> is_attr_space(s[k]),
    ensures
        skip_space(s, j) == b,
    decreases b - j,
{
    if j < b {
        lemma_skip_space_run(s, j + 1, b);
    }
}

proof fn lemma_skip_space_upto(s: Seq<char>, j: int, b: int)
    requires
        0 <= j <= b < s.len(),
        !is_attr_space(s[b]),
    ensures
        j <= skip_space(s, j) <= b,
    decreases b - j,
{
    if j < b && is_attr_space(s[j]) {
        lemma_skip_space_upto(s, j + 1, b);
    }
}

} // verus!
