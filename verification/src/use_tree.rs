//! The use-tree grammar: a flattened use-tree string (`a::b::{C, d as E, *}`)
//! read into its root segment and the names it brings into scope.

use vstd::prelude::*;
use crate::lexical::{
    after_last, after_last_exec, before_first, before_first_exec, chars_eq, is_white, rfind,
    rfind_exec, rsplit_once, rsplit_once_exec, slice_vec, strip_prefix_all, strip_prefix_all_exec,
    strip_suffix_all, strip_suffix_all_exec, trim, trim_end, trim_exec, trim_start,
    lemma_rfind_sound,
};
use crate::text::{chars_of, find_from, find_from_exec, lemma_find_from_sound, occurs_at, string_of};

verus! {

/// The value of one use-tree leaf: a name bound in scope together with the
/// imported item's own name, or a glob.
pub ghost enum LeafView {
    Named { binding: Seq<char>, source: Option<Seq<char>> },
    Glob { parent: Option<Seq<char>> },
}

/// One leaf of a flattened use-tree string. `Named` carries the in-scope
/// binding plus the imported item's source name (`X as Y` binds `Y` with
/// source `X`; `{self}` binds the parent segment; a plain leaf binds itself).
/// `Glob` marks a `*` import, with the path segment it imports from (the
/// last segment before the `*`, or the brace group's parent segment).
#[derive(Debug, Clone)]
pub enum UseLeaf {
    Named { binding: String, source: Option<String> },
    Glob { parent: Option<String> },
}

impl View for UseLeaf {
    type V = LeafView;

    open spec fn view(&self) -> LeafView {
        match self {
            UseLeaf::Named { binding, source } => LeafView::Named {
                binding: binding@,
                source: match source {
                    Some(s) => Some(s@),
                    None => None,
                },
            },
            UseLeaf::Glob { parent } => LeafView::Glob {
                parent: match parent {
                    Some(p) => Some(p@),
                    None => None,
                },
            },
        }
    }
}

/// The parse of one flattened use-tree string: the root segment (empty when
/// the path is empty) plus the expanded leaves.
#[derive(Debug, Clone)]
pub struct UseParse {
    pub root: String,
    pub leaves: Vec<UseLeaf>,
}

/// The views of a list of leaves.
pub open spec fn leaf_views(v: Seq<UseLeaf>) -> Seq<LeafView> {
    v.map_values(|l: UseLeaf| l@)
}

pub open spec fn colons() -> Seq<char> {
    seq![':', ':']
}

pub open spec fn as_sep() -> Seq<char> {
    seq![' ', 'a', 's', ' ']
}

pub open spec fn self_kw() -> Seq<char> {
    seq!['s', 'e', 'l', 'f']
}

pub open spec fn raw_prefix() -> Seq<char> {
    seq!['r', '#']
}

/// The next top-level `,` of a brace group's inside at or after `k` (brace
/// depth `depth`), or the end of the text.
pub open spec fn next_top_comma(s: Seq<char>, k: int, depth: int) -> int
    decreases s.len() - k,
{
    if k < 0 || k >= s.len() {
        s.len() as int
    } else if s[k] == ',' && depth == 0 {
        k
    } else if s[k] == '{' {
        next_top_comma(s, k + 1, depth + 1)
    } else if s[k] == '}' {
        next_top_comma(s, k + 1, depth - 1)
    } else {
        next_top_comma(s, k + 1, depth)
    }
}

pub proof fn lemma_next_top_comma_bounds(s: Seq<char>, k: int, depth: int)
    requires
        0 <= k <= s.len(),
    ensures
        k <= next_top_comma(s, k, depth) <= s.len(),
    decreases s.len() - k,
{
    if k < s.len() {
        lemma_next_top_comma_bounds(s, k + 1, depth + 1);
        lemma_next_top_comma_bounds(s, k + 1, depth - 1);
        lemma_next_top_comma_bounds(s, k + 1, depth);
    }
}

pub proof fn lemma_trim_len(s: Seq<char>)
    ensures
        trim(s).len() <= s.len(),
{
    lemma_trim_start_len(s);
    lemma_trim_end_len(trim_start(s));
}

proof fn lemma_trim_start_len(s: Seq<char>)
    ensures
        trim_start(s).len() <= s.len(),
    decreases s.len(),
{
    if s.len() > 0 && is_white(s[0]) {
        lemma_trim_start_len(s.drop_first());
    }
}

proof fn lemma_trim_end_len(s: Seq<char>)
    ensures
        trim_end(s).len() <= s.len(),
    decreases s.len(),
{
    if s.len() > 0 && is_white(s.last()) {
        lemma_trim_end_len(s.drop_last());
    }
}

/// The brace group of a (trimmed) use-tree text: the position of its first
/// `{` and of its last `}` (the end when there is none).
pub open spec fn brace_span(s: Seq<char>) -> Option<(int, int)> {
    match find_from(s, seq!['{'], 0) {
        Some(b) => Some(
            (
                b,
                match rfind(s, seq!['}']) {
                    Some(c) => c,
                    None => s.len() as int,
                },
            ),
        ),
        None => None,
    }
}

/// The parent segment a brace group hands to its leaves: the last segment of
/// the prefix before the `{` (with trailing `::` and whitespace removed), or
/// the enclosing parent when that segment is empty.
pub open spec fn group_parent(s: Seq<char>, b: int, parent: Option<Seq<char>>) -> Option<
    Seq<char>,
> {
    let prefix = trim(strip_suffix_all(s.subrange(0, b), colons()));
    let last = after_last(prefix, colons());
    if last.len() > 0 {
        Some(last)
    } else {
        parent
    }
}

/// The segment a full-path glob imports from: the last segment before the
/// final `::`, trimmed (the enclosing parent when that is empty or there is
/// no `::`).
pub open spec fn glob_parent(s: Seq<char>, parent: Option<Seq<char>>) -> Option<Seq<char>> {
    match rsplit_once(s, colons()) {
        Some((base, _)) => {
            let p = trim(after_last(trim(base), colons()));
            if p.len() > 0 {
                Some(p)
            } else {
                parent
            }
        },
        None => parent,
    }
}

/// The leaves of a use-tree text that holds no brace group.
pub open spec fn simple_leaves(s: Seq<char>, parent: Option<Seq<char>>) -> Seq<LeafView> {
    match rsplit_once(s, as_sep()) {
        Some((base0, renamed)) => {
            let base = trim(base0);
            seq![
                LeafView::Named {
                    binding: trim(renamed),
                    source: if base == self_kw() {
                        parent
                    } else {
                        Some(after_last(base, colons()))
                    },
                },
            ]
        },
        None => if s == self_kw() {
            match parent {
                Some(p) => seq![LeafView::Named { binding: p, source: Some(p) }],
                None => Seq::empty(),
            }
        } else {
            let leaf = trim(after_last(s, colons()));
            if leaf == seq!['*'] {
                seq![LeafView::Glob { parent: glob_parent(s, parent) }]
            } else if leaf.len() == 0 {
                Seq::empty()
            } else {
                seq![LeafView::Named { binding: leaf, source: Some(leaf) }]
            }
        },
    }
}

/// The leaves of one use-tree text under the given parent segment: brace
/// groups expand recursively (their pieces split at top-level commas, with
/// the prefix's last segment as parent); `X as Y` binds `Y` with source `X`
/// (the parent for `self as Y`); bare `self` binds the parent; `*` is a glob.
pub open spec fn leaves_view(s0: Seq<char>, parent: Option<Seq<char>>) -> Seq<LeafView>
    decreases s0.len(), 0int,
{
    let s = trim(s0);
    proof {
        lemma_trim_len(s0);
    }
    if s.len() == 0 {
        Seq::empty()
    } else if s == seq!['*'] {
        seq![LeafView::Glob { parent }]
    } else {
        match brace_span(s) {
            Some((b, close)) => {
                proof {
                    lemma_find_from_sound(s, seq!['{'], 0);
                }
                if close < b + 1 || close > s.len() {
                    Seq::empty()
                } else {
                    pieces_leaves(s.subrange(b + 1, close), 0, group_parent(s, b, parent))
                }
            },
            None => simple_leaves(s, parent),
        }
    }
}

/// The leaves of the pieces of a brace group's inside from position `from`.
pub open spec fn pieces_leaves(inner: Seq<char>, from: int, parent: Option<Seq<char>>) -> Seq<
    LeafView,
>
    decreases inner.len(), inner.len() + 1 - from,
{
    if from < 0 || from > inner.len() {
        Seq::empty()
    } else {
        let cut = next_top_comma(inner, from, 0);
        proof {
            lemma_next_top_comma_bounds(inner, from, 0);
        }
        leaves_view(inner.subrange(from, cut), parent) + pieces_leaves(inner, cut + 1, parent)
    }
}

/// A use-tree text that can be expanded: every brace group's last `}` lies
/// after its first `{`.
pub open spec fn leaves_defined(s0: Seq<char>) -> bool
    decreases s0.len(), 0int,
{
    let s = trim(s0);
    proof {
        lemma_trim_len(s0);
    }
    if s.len() == 0 || s == seq!['*'] {
        true
    } else {
        match brace_span(s) {
            Some((b, close)) => {
                proof {
                    lemma_find_from_sound(s, seq!['{'], 0);
                }
                if close < b + 1 || close > s.len() {
                    false
                } else {
                    pieces_defined(s.subrange(b + 1, close), 0)
                }
            },
            None => true,
        }
    }
}

/// Every piece of a brace group's inside from `from` can be expanded.
pub open spec fn pieces_defined(inner: Seq<char>, from: int) -> bool
    decreases inner.len(), inner.len() + 1 - from,
{
    if from < 0 || from > inner.len() {
        true
    } else {
        let cut = next_top_comma(inner, from, 0);
        proof {
            lemma_next_top_comma_bounds(inner, from, 0);
        }
        leaves_defined(inner.subrange(from, cut)) && pieces_defined(inner, cut + 1)
    }
}

/// The root segment of a use path: the first segment of its base path
/// (before any ` as ` rename), trimmed, with `r#` prefixes removed.
pub open spec fn use_root(path: Seq<char>) -> Seq<char> {
    strip_prefix_all(trim(before_first(before_first(trim(path), colons()), as_sep())), raw_prefix())
}

/// A use path the grammar can read: its leaves can be expanded whenever it
/// has a root.
pub open spec fn use_path_defined(path: Seq<char>) -> bool {
    use_root(path).len() > 0 ==> leaves_defined(trim(path))
}

/// The parse of a use path: its root and, when the root is non-empty, the
/// leaves of the whole trimmed path.
pub open spec fn parse_view(path: Seq<char>) -> (Seq<char>, Seq<LeafView>) {
    let root = use_root(path);
    (
        root,
        if root.len() > 0 {
            leaves_view(trim(path), None)
        } else {
            Seq::empty()
        },
    )
}

/// The view of an optional owned name.
pub open spec fn opt_chars_view(o: Option<Vec<char>>) -> Option<Seq<char>> {
    match o {
        Some(v) => Some(v@),
        None => None,
    }
}

fn next_top_comma_exec(s: &[char], k0: usize) -> (r: usize)
    requires
        k0 <= s@.len(),
    ensures
        r == next_top_comma(s@, k0 as int, 0),
{
    let mut k = k0;
    let mut opens: usize = 0;
    let mut closes: usize = 0;
    while k < s.len()
        invariant
            k0 <= k <= s@.len(),
            opens + closes <= k - k0,
            next_top_comma(s@, k0 as int, 0) == next_top_comma(s@, k as int, opens - closes),
        decreases s@.len() - k,
    {
        let c = s[k];
        if c == ',' && opens == closes {
            return k;
        } else if c == '{' {
            opens = opens + 1;
        } else if c == '}' {
            closes = closes + 1;
        }
        k = k + 1;
    }
    k
}

fn push_leaf(out: &mut Vec<UseLeaf>, leaf: UseLeaf)
    ensures
        leaf_views(final(out)@) == leaf_views(old(out)@).push(leaf@),
{
    out.push(leaf);
    assert(leaf_views(out@) =~= leaf_views(old(out)@).push(leaf@));
}

fn glob_parent_exec(s: &[char], parent: &Option<Vec<char>>) -> (r: Option<String>)
    ensures
        crate::resolution::opt_view(r) == glob_parent(s@, opt_chars_view(*parent)),
{
    let colon2 = vec![':', ':'];
    assert(colon2@ =~= colons());
    let fallback = match parent {
        Some(p) => Some(string_of(p)),
        None => None,
    };
    match rsplit_once_exec(s, &colon2) {
        Some((base, _)) => {
            let b = trim_exec(&base);
            let tail = after_last_exec(&b, &colon2);
            let seg = trim_exec(&tail);
            if seg.len() > 0 {
                Some(string_of(&seg))
            } else {
                fallback
            }
        },
        None => fallback,
    }
}

fn simple_leaves_exec(s: &[char], parent: &Option<Vec<char>>, out: &mut Vec<UseLeaf>)
    ensures
        leaf_views(final(out)@) == leaf_views(old(out)@) + simple_leaves(s@, opt_chars_view(*parent)),
{
    let as_kw = vec![' ', 'a', 's', ' '];
    let colon2 = vec![':', ':'];
    let self_chars = vec!['s', 'e', 'l', 'f'];
    let star = vec!['*'];
    assert(as_kw@ =~= as_sep());
    assert(colon2@ =~= colons());
    assert(self_chars@ =~= self_kw());
    assert(star@ =~= seq!['*']);
    let ghost start = leaf_views(out@);
    match rsplit_once_exec(s, &as_kw) {
        Some((base0, renamed)) => {
            let binding = trim_exec(&renamed);
            let base = trim_exec(&base0);
            let source = if chars_eq(&base, &self_chars) {
                match parent {
                    Some(p) => Some(string_of(p)),
                    None => None,
                }
            } else {
                let tail = after_last_exec(&base, &colon2);
                Some(string_of(&tail))
            };
            push_leaf(out, UseLeaf::Named { binding: string_of(&binding), source });
        },
        None => {
            if chars_eq(s, &self_chars) {
                match parent {
                    Some(p) => {
                        push_leaf(
                            out,
                            UseLeaf::Named { binding: string_of(p), source: Some(string_of(p)) },
                        );
                    },
                    None => {
                        assert(leaf_views(out@) =~= start + Seq::<LeafView>::empty());
                    },
                }
            } else {
                let tail = after_last_exec(s, &colon2);
                let leaf = trim_exec(&tail);
                if chars_eq(&leaf, &star) {
                    let gp = glob_parent_exec(s, parent);
                    push_leaf(out, UseLeaf::Glob { parent: gp });
                } else if leaf.len() == 0 {
                    assert(leaf_views(out@) =~= start + Seq::<LeafView>::empty());
                } else {
                    push_leaf(
                        out,
                        UseLeaf::Named { binding: string_of(&leaf), source: Some(string_of(&leaf)) },
                    );
                }
            }
        },
    }
}

fn leaves_exec(s0: &[char], parent: &Option<Vec<char>>, out: &mut Vec<UseLeaf>)
    requires
        leaves_defined(s0@),
    ensures
        leaf_views(final(out)@) == leaf_views(old(out)@) + leaves_view(s0@, opt_chars_view(*parent)),
    decreases s0@.len(),
{
    let s = trim_exec(s0);
    proof {
        lemma_trim_len(s0@);
    }
    let ghost start = leaf_views(out@);
    let star = vec!['*'];
    assert(star@ =~= seq!['*']);
    if s.len() == 0 {
        assert(leaf_views(out@) =~= start + Seq::<LeafView>::empty());
        return;
    }
    if chars_eq(&s, &star) {
        let gp = match parent {
            Some(p) => Some(string_of(p)),
            None => None,
        };
        push_leaf(out, UseLeaf::Glob { parent: gp });
        return;
    }
    let open = vec!['{'];
    let close_brace = vec!['}'];
    assert(open@ =~= seq!['{']);
    assert(close_brace@ =~= seq!['}']);
    let found = find_from_exec(&s, &open, 0);
    proof {
        lemma_find_from_sound(s@, open@, 0);
        lemma_rfind_sound(s@, close_brace@);
    }
    match found {
        Some(b) => {
            assert(occurs_at(s@, open@, b as int));
            let close = match rfind_exec(&s, &close_brace) {
                Some(c) => c,
                None => s.len(),
            };
            let colon2 = vec![':', ':'];
            assert(colon2@ =~= colons());
            let head = slice_vec(&s, 0, b);
            let stripped = strip_suffix_all_exec(&head, &colon2);
            let prefix = trim_exec(&stripped);
            let last = after_last_exec(&prefix, &colon2);
            let par: Option<Vec<char>> = if last.len() > 0 {
                Some(last)
            } else {
                match parent {
                    Some(p) => Some(slice_vec(p, 0, p.len())),
                    None => None,
                }
            };
            proof {
                if let Some(p) = parent {
                    assert(p@.subrange(0, p@.len() as int) =~= p@);
                }
            }
            assert(opt_chars_view(par) == group_parent(s@, b as int, opt_chars_view(*parent)));
            let inner = slice_vec(&s, b + 1, close);
            let n = inner.len();
            assert(n < s.len());
            let mut from: usize = 0;
            while from <= n
                invariant
                    n == inner@.len(),
                    n < s0@.len(),
                    n < usize::MAX,
                    from <= n + 1,
                    pieces_defined(inner@, 0),
                    pieces_defined(inner@, from as int),
                    leaf_views(out@) + pieces_leaves(inner@, from as int, opt_chars_view(par))
                        == start + pieces_leaves(inner@, 0, opt_chars_view(par)),
                decreases n + 1 - from,
            {
                let cut = next_top_comma_exec(&inner, from);
                proof {
                    lemma_next_top_comma_bounds(inner@, from as int, 0);
                }
                let piece = slice_vec(&inner, from, cut);
                let ghost before = leaf_views(out@);
                leaves_exec(&piece, &par, out);
                assert(before + pieces_leaves(inner@, from as int, opt_chars_view(par)) =~= leaf_views(
                    out@,
                ) + pieces_leaves(inner@, cut + 1, opt_chars_view(par)));
                from = cut + 1;
            }
            assert(leaf_views(out@) =~= start + pieces_leaves(inner@, 0, opt_chars_view(par)));
        },
        None => {
            simple_leaves_exec(&s, parent, out);
        },
    }
}

/// Expands one flattened use-tree string into its root segment plus leaves.
/// Brace groups expand recursively (pieces split at top-level commas, with
/// the prefix's last segment as the `self` parent); `as` renames, bare
/// `self` and globs are recognised. A bare top-level `self` yields no leaf.
pub fn parse_use_leaves(path: &str) -> (r: UseParse)
    requires
        use_path_defined(path@),
    ensures
        (r.root@, leaf_views(r.leaves@)) == parse_view(path@),
{
    let cs = chars_of(path);
    let trimmed = trim_exec(&cs);
    let colon2 = vec![':', ':'];
    let as_kw = vec![' ', 'a', 's', ' '];
    let raw = vec!['r', '#'];
    assert(colon2@ =~= colons());
    assert(as_kw@ =~= as_sep());
    assert(raw@ =~= raw_prefix());
    let first = before_first_exec(&trimmed, &colon2);
    let base = before_first_exec(&first, &as_kw);
    let base_trimmed = trim_exec(&base);
    let root_chars = strip_prefix_all_exec(&base_trimmed, &raw);
    let mut out: Vec<UseLeaf> = Vec::new();
    if root_chars.len() > 0 {
        leaves_exec(&trimmed, &None, &mut out);
    }
    assert(leaf_views(out@) =~= parse_view(path@).1);
    UseParse { root: string_of(&root_chars), leaves: out }
}

/// Whether `parse_use_leaves` can read `path` (a brace group's last `}` never
/// comes before its first `{`).
pub fn use_path_is_defined(path: &str) -> (r: bool)
    ensures
        r == use_path_defined(path@),
{
    let cs = chars_of(path);
    let trimmed = trim_exec(&cs);
    let colon2 = vec![':', ':'];
    let as_kw = vec![' ', 'a', 's', ' '];
    let raw = vec!['r', '#'];
    assert(colon2@ =~= colons());
    assert(as_kw@ =~= as_sep());
    assert(raw@ =~= raw_prefix());
    let first = before_first_exec(&trimmed, &colon2);
    let base = before_first_exec(&first, &as_kw);
    let base_trimmed = trim_exec(&base);
    let root_chars = strip_prefix_all_exec(&base_trimmed, &raw);
    if root_chars.len() == 0 {
        return true;
    }
    leaves_defined_exec(&trimmed)
}

fn leaves_defined_exec(s0: &[char]) -> (r: bool)
    ensures
        r == leaves_defined(s0@),
    decreases s0@.len(),
{
    let s = trim_exec(s0);
    proof {
        lemma_trim_len(s0@);
    }
    let star = vec!['*'];
    assert(star@ =~= seq!['*']);
    if s.len() == 0 || chars_eq(&s, &star) {
        return true;
    }
    let open = vec!['{'];
    let close_brace = vec!['}'];
    assert(open@ =~= seq!['{']);
    assert(close_brace@ =~= seq!['}']);
    let found = find_from_exec(&s, &open, 0);
    proof {
        lemma_find_from_sound(s@, open@, 0);
        lemma_rfind_sound(s@, close_brace@);
    }
    match found {
        None => true,
        Some(b) => {
            assert(occurs_at(s@, open@, b as int));
            let close = match rfind_exec(&s, &close_brace) {
                Some(c) => c,
                None => s.len(),
            };
            if close < b + 1 {
                return false;
            }
            let inner = slice_vec(&s, b + 1, close);
            let n = inner.len();
            assert(n < s.len());
            assert(leaves_defined(s0@) == pieces_defined(inner@, 0));
            let mut from: usize = 0;
            while from <= n
                invariant
                    n == inner@.len(),
                    n < s0@.len(),
                    n < usize::MAX,
                    from <= n + 1,
                    leaves_defined(s0@) == pieces_defined(inner@, 0),
                    pieces_defined(inner@, 0) == pieces_defined(inner@, from as int),
                decreases n + 1 - from,
            {
                let cut = next_top_comma_exec(&inner, from);
                proof {
                    lemma_next_top_comma_bounds(inner@, from as int, 0);
                }
                let piece = slice_vec(&inner, from, cut);
                if !leaves_defined_exec(&piece) {
                    assert(!pieces_defined(inner@, from as int));
                    return false;
                }
                from = cut + 1;
            }
            true
        },
    }
}

} // verus!
