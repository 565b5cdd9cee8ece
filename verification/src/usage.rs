//! Usage-site attribution: which crate a file belongs to, how a pattern's
//! usage sites split into intra-crate, inter-crate and evidence files, the
//! shape tests on pattern names, and the directories a workspace walk skips.

use vstd::prelude::*;
use indexmap::IndexMap;
use crate::crate_map::{dir_at, dir_count, dir_entries};
use crate::lexical::{split_exec, split_seq, strip_suffix_all, strip_suffix_all_exec, chars_eq};
use crate::modules::forward_slashes;
use crate::resolution::strings_view;
use crate::text::{chars_of, contains_seq, occurs_at_exec, starts_with, str_contains, str_eq, str_starts_with};

verus! {

/// What `char::is_lowercase` gives for `c`.
pub uninterp spec fn lower_char(c: char) -> bool;

/// What `char::is_uppercase` gives for `c`.
pub uninterp spec fn upper_char(c: char) -> bool;

/// `char::is_lowercase`: whether `c` has the Unicode Lowercase property,
/// named by `lower_char`.
#[verifier::external_body]
fn char_is_lowercase(c: char) -> (r: bool)
    ensures
        r == lower_char(c),
{
    c.is_lowercase()
}

/// `char::is_uppercase`: whether `c` has the Unicode Uppercase property,
/// named by `upper_char`.
#[verifier::external_body]
pub(crate) fn char_is_uppercase(c: char) -> (r: bool)
    ensures
        r == upper_char(c),
{
    c.is_uppercase()
}

/// A constant-shaped name: non-empty with no lowercase character.
pub open spec fn constant_shaped(s: Seq<char>) -> bool {
    s.len() > 0 && forall|i: int| 0 <= i < s.len() ==> !lower_char(#[trigger] s[i])
}

/// A variant-shaped name: starts uppercase and has a lowercase character.
pub open spec fn variant_shaped(s: Seq<char>) -> bool {
    s.len() > 0 && upper_char(s[0]) && exists|i: int| 0 <= i < s.len() && lower_char(#[trigger] s[i])
}

fn any_lowercase(cs: &Vec<char>) -> (r: bool)
    ensures
        r == exists|i: int| 0 <= i < cs@.len() && lower_char(#[trigger] cs@[i]),
{
    let mut i: usize = 0;
    while i < cs.len()
        invariant
            i <= cs@.len(),
            forall|k: int| 0 <= k < i ==> !lower_char(#[trigger] cs@[k]),
        decreases cs@.len() - i,
    {
        if char_is_lowercase(cs[i]) {
            return true;
        }
        i = i + 1;
    }
    false
}

/// Whether a pattern name is constant-shaped (`MAX_LEN`, `X`).
pub fn is_constant_shaped(inner: &str) -> (r: bool)
    ensures
        r == constant_shaped(inner@),
{
    let cs = chars_of(inner);
    cs.len() > 0 && !any_lowercase(&cs)
}

/// Whether a pattern name is variant-shaped (`Some`, `NotFound`).
pub fn is_variant_shaped(inner: &str) -> (r: bool)
    ensures
        r == variant_shaped(inner@),
{
    let cs = chars_of(inner);
    cs.len() > 0 && char_is_uppercase(cs[0]) && any_lowercase(&cs)
}

/// The best crate for a file so far, as (name, matched prefix length; -1
/// before any match), after one more (name, dir) entry: a root directory
/// (`""` or `.`) matches with length 0 when nothing has matched yet; any
/// other directory matches when the file lies under it and its prefix is
/// longer than the best so far.
pub open spec fn crate_for_file_step(best: (Seq<char>, int), name: Seq<char>, dir: Seq<char>, norm: Seq<char>) -> (
    Seq<char>,
    int,
) {
    let d = strip_suffix_all(dir, seq!['/']);
    if d.len() == 0 || d == seq!['.'] {
        if best.1 < 0 {
            (name, 0)
        } else {
            best
        }
    } else {
        let prefix = d.push('/');
        if starts_with(norm, prefix) && prefix.len() > best.1 {
            (name, prefix.len() as int)
        } else {
            best
        }
    }
}

/// The best crate for a file after reading the directory entries in order.
pub open spec fn crate_for_file_fold(entries: Seq<(Seq<char>, Seq<char>)>, norm: Seq<char>) -> (Seq<char>, int)
    decreases entries.len(),
{
    if entries.len() == 0 {
        (Seq::empty(), -1)
    } else {
        crate_for_file_step(crate_for_file_fold(entries.drop_last(), norm), entries.last().0, entries.last().1, norm)
    }
}

/// The crate that owns a file: the one whose directory is the longest
/// prefix of the (forward-slashed) path, a root crate otherwise, the empty
/// name when none.
pub open spec fn crate_for_file(file: Seq<char>, entries: Seq<(Seq<char>, Seq<char>)>) -> Seq<char> {
    crate_for_file_fold(entries, forward_slashes(file)).0
}

/// Resolves the crate owning `file_path` by longest directory prefix.
pub fn resolve_crate_for_file(file_path: &str, crate_dirs: &IndexMap<String, String>) -> (r: String)
    ensures
        r@ == crate_for_file(file_path@, dir_entries(*crate_dirs)),
{
    let ghost es = dir_entries(*crate_dirs);
    let cs = chars_of(file_path);
    let mut norm: Vec<char> = Vec::new();
    let mut t: usize = 0;
    while t < cs.len()
        invariant
            t <= cs@.len(),
            cs@ == file_path@,
            norm@ == forward_slashes(file_path@).take(t as int),
        decreases cs@.len() - t,
    {
        norm.push(if cs[t] == '\\' {
            '/'
        } else {
            cs[t]
        });
        assert(norm@ =~= forward_slashes(file_path@).take(t + 1));
        t = t + 1;
    }
    assert(forward_slashes(file_path@).take(t as int) =~= forward_slashes(file_path@));
    let n = dir_count(crate_dirs);
    let slash = vec!['/'];
    let dot = vec!['.'];
    assert(slash@ =~= seq!['/']);
    assert(dot@ =~= seq!['.']);
    let mut best = String::new();
    let mut best_len: Option<usize> = None;
    let mut i: usize = 0;
    assert(es.take(0) =~= Seq::<(Seq<char>, Seq<char>)>::empty());
    while i < n
        invariant
            i <= n == es.len(),
            es == dir_entries(*crate_dirs),
            norm@ == forward_slashes(file_path@),
            slash@ == seq!['/'],
            dot@ == seq!['.'],
            crate_for_file_fold(es.take(i as int), norm@) == (best@, match best_len {
                Some(l) => l as int,
                None => -1,
            }),
            best_len matches Some(l) ==> l <= norm@.len(),
        decreases n - i,
    {
        let (name, dir) = dir_at(crate_dirs, i).unwrap();
        assert(es.take(i + 1).drop_last() =~= es.take(i as int));
        assert(es.take(i + 1).last() == es[i as int]);
        let dcs = chars_of(dir.as_str());
        let d = strip_suffix_all_exec(&dcs, &slash);
        if d.len() == 0 || chars_eq(&d, &dot) {
            if best_len.is_none() {
                best = name.clone();
                best_len = Some(0);
            }
        } else {
            let mut prefix = d;
            prefix.push('/');
            let longer = match best_len {
                Some(l) => prefix.len() > l,
                None => true,
            };
            if longer && occurs_at_exec(&norm, &prefix, 0) {
                best = name.clone();
                best_len = Some(prefix.len());
            }
        }
        i = i + 1;
    }
    assert(es.take(n as int) =~= es);
    best
}

/// A site in an examples directory.
pub open spec fn in_examples(f: Seq<char>) -> bool {
    contains_seq(f, "/examples/"@) || starts_with(f, "examples/"@)
}

/// Whether a file lies in an examples directory.
pub fn in_examples_exec(f: &str) -> (r: bool)
    ensures
        r == in_examples(f@),
{
    proof {
        reveal_strlit("/examples/");
        reveal_strlit("examples/");
    }
    str_contains(f, "/examples/") || str_starts_with(f, "examples/")
}

/// A site in a tests directory.
pub open spec fn in_tests(f: Seq<char>) -> bool {
    contains_seq(f, "/tests/"@) || starts_with(f, "tests/"@)
}

/// A site in a benches directory.
pub open spec fn in_benches(f: Seq<char>) -> bool {
    contains_seq(f, "/benches/"@) || starts_with(f, "benches/"@)
}

/// The usage counts of a pattern's site files: intra-crate sites, inter-crate
/// sites, the distinct evidence files (examples, tests, benches) and the
/// distinct example files, as (intra, inter, evidence, curated) with the
/// distinct files listed in first-seen order. Files owned by no crate are
/// skipped.
pub open spec fn usage_fold(
    files: Seq<Seq<char>>,
    defining: Seq<char>,
    entries: Seq<(Seq<char>, Seq<char>)>,
) -> (nat, nat, Seq<Seq<char>>, Seq<Seq<char>>)
    decreases files.len(),
{
    if files.len() == 0 {
        (0, 0, Seq::empty(), Seq::empty())
    } else {
        let prev = usage_fold(files.drop_last(), defining, entries);
        let f = files.last();
        let using = crate_for_file(f, entries);
        let ev = if prev.2.contains(f) {
            prev.2
        } else {
            prev.2.push(f)
        };
        if using.len() == 0 {
            prev
        } else if in_examples(f) {
            (prev.0, prev.1, ev, if prev.3.contains(f) {
                prev.3
            } else {
                prev.3.push(f)
            })
        } else if in_tests(f) || in_benches(f) {
            (prev.0, prev.1, ev, prev.3)
        } else if using == defining {
            (prev.0 + 1, prev.1, prev.2, prev.3)
        } else {
            (prev.0, prev.1 + 1, prev.2, prev.3)
        }
    }
}

fn push_distinct(v: &mut Vec<String>, f: &String)
    ensures
        strings_view(final(v)@) == (if strings_view(old(v)@).contains(f@) {
            strings_view(old(v)@)
        } else {
            strings_view(old(v)@).push(f@)
        }),
{
    if !crate::resolution::strings_contain(v, f.as_str()) {
        let ghost before = strings_view(v@);
        v.push(f.clone());
        assert(strings_view(v@) =~= before.push(f@));
    }
}

proof fn lemma_usage_bounded(files: Seq<Seq<char>>, defining: Seq<char>, entries: Seq<(Seq<char>, Seq<char>)>)
    ensures
        usage_fold(files, defining, entries).0 + usage_fold(files, defining, entries).1 <= files.len(),
        usage_fold(files, defining, entries).2.len() <= files.len(),
        usage_fold(files, defining, entries).3.len() <= files.len(),
    decreases files.len(),
{
    if files.len() > 0 {
        lemma_usage_bounded(files.drop_last(), defining, entries);
    }
}

/// Counts a pattern's usage sites: (intra-crate sites, inter-crate sites,
/// distinct evidence files, distinct example files).
pub fn count_usages(files: &Vec<String>, defining_crate: &str, crate_dirs: &IndexMap<String, String>) -> (r: (
    usize,
    usize,
    usize,
    usize,
))
    ensures
        ({
            let u = usage_fold(strings_view(files@), defining_crate@, dir_entries(*crate_dirs));
            r.0 == u.0 && r.1 == u.1 && r.2 == u.2.len() && r.3 == u.3.len()
        }),
{
    proof {
        reveal_strlit("/examples/");
        reveal_strlit("examples/");
        reveal_strlit("/tests/");
        reveal_strlit("tests/");
        reveal_strlit("/benches/");
        reveal_strlit("benches/");
    }
    let ghost fs = strings_view(files@);
    let ghost es = dir_entries(*crate_dirs);
    let mut intra: usize = 0;
    let mut inter: usize = 0;
    let mut example_files: Vec<String> = Vec::new();
    let mut curated_files: Vec<String> = Vec::new();
    let mut i: usize = 0;
    assert(fs.take(0) =~= Seq::<Seq<char>>::empty());
    assert(strings_view(example_files@) =~= Seq::<Seq<char>>::empty());
    assert(strings_view(curated_files@) =~= Seq::<Seq<char>>::empty());
    while i < files.len()
        invariant
            i <= files@.len(),
            fs == strings_view(files@),
            es == dir_entries(*crate_dirs),
            usage_fold(fs.take(i as int), defining_crate@, es) == (
                intra as nat,
                inter as nat,
                strings_view(example_files@),
                strings_view(curated_files@),
            ),
        decreases files@.len() - i,
    {
        let f = &files[i];
        assert(fs.take(i + 1).drop_last() =~= fs.take(i as int));
        assert(fs.take(i + 1).last() == f@);
        proof {
            lemma_usage_bounded(fs.take(i + 1), defining_crate@, es);
        }
        let using = resolve_crate_for_file(f.as_str(), crate_dirs);
        if using.as_str().is_empty() {
        } else if str_contains(f.as_str(), "/examples/") || str_starts_with(f.as_str(), "examples/") {
            push_distinct(&mut example_files, f);
            push_distinct(&mut curated_files, f);
        } else if str_contains(f.as_str(), "/tests/") || str_starts_with(f.as_str(), "tests/") {
            push_distinct(&mut example_files, f);
        } else if str_contains(f.as_str(), "/benches/") || str_starts_with(f.as_str(), "benches/") {
            push_distinct(&mut example_files, f);
        } else if str_eq(using.as_str(), defining_crate) {
            intra = intra + 1;
        } else {
            inter = inter + 1;
        }
        i = i + 1;
    }
    assert(fs.take(i as int) =~= fs);
    (intra, inter, example_files.len(), curated_files.len())
}

/// A path the workspace walk skips: one with a `target` or `.git`
/// component.
pub open spec fn skip_dir_view(p: Seq<char>) -> bool {
    split_seq(p, seq!['/']).contains("target"@) || split_seq(p, seq!['/']).contains(".git"@)
}

/// Whether a (`/`-separated) path lies in a build-output or version-control
/// directory.
pub fn is_skip_dir(p: &str) -> (r: bool)
    ensures
        r == skip_dir_view(p@),
{
    proof {
        reveal_strlit("target");
        reveal_strlit(".git");
    }
    let cs = chars_of(p);
    let slash = vec!['/'];
    assert(slash@ =~= seq!['/']);
    let parts = split_exec(&cs, &slash);
    let ghost ps = parts@.map_values(|v: Vec<char>| v@);
    assert(ps == split_seq(p@, seq!['/']));
    let target = vec!['t', 'a', 'r', 'g', 'e', 't'];
    let git = vec!['.', 'g', 'i', 't'];
    assert(target@ =~= "target"@);
    assert(git@ =~= ".git"@);
    let mut i: usize = 0;
    while i < parts.len()
        invariant
            i <= parts@.len(),
            ps == parts@.map_values(|v: Vec<char>| v@),
            ps == split_seq(p@, seq!['/']),
            target@ == "target"@,
            git@ == ".git"@,
            forall|k: int| 0 <= k < i ==> ps[k] != "target"@ && ps[k] != ".git"@,
        decreases parts@.len() - i,
    {
        if chars_eq(&parts[i], &target) || chars_eq(&parts[i], &git) {
            assert(ps[i as int] == parts@[i as int]@);
            assert(ps.contains(ps[i as int]));
            return true;
        }
        i = i + 1;
    }
    false
}

} // verus!
