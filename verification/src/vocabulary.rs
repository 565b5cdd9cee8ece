//! The core vocabulary of a workspace: its most depended-on crate, and that
//! crate's types and traits ranked by how much the workspace uses them.

use vstd::prelude::*;
use crate::emit_text::{is_src_file, src_file_view};
use crate::instances::FactRecord;
use crate::lexical::{after_last, after_last_exec, before_first, before_first_exec, trim, trim_exec};
use crate::metrics::{owned_or_empty, text_or_empty};
use crate::resolution::{opt_view, strings_contain, strings_view};
use crate::stable_order::{
    KeyView, SortKey, key_lt, keys_view, lemma_stable_order_range, lemma_stable_order_sorted, positions_view, stable_order,
    stable_order_exec,
};
use crate::text::{chars_of, seq_lt, str_eq, string_of};

verus! {

/// What `Regex::new(pattern)` followed by `find_iter(haystack)` yields: the
/// matched substrings in order, or `None` when the pattern does not
/// compile.
pub uninterp spec fn regex_matches(pattern: Seq<char>, haystack: Seq<char>) -> Option<Seq<Seq<char>>>;

/// `regex::Regex::new` and `Regex::find_iter`: compiles `pattern` and lists
/// the text of each successive non-overlapping match in `haystack`, named
/// by `regex_matches`; `None` when the pattern fails to compile.
#[verifier::external_body]
fn find_all(pattern: &str, haystack: &str) -> (r: Option<Vec<String>>)
    ensures
        match r {
            Some(v) => regex_matches(pattern@, haystack@) == Some(strings_view(v@)),
            None => regex_matches(pattern@, haystack@) is None,
        },
{
    match regex::Regex::new(pattern) {
        Ok(re) => Some(re.find_iter(haystack).map(|m| m.as_str().to_string()).collect()),
        Err(_) => None,
    }
}

/// The capitalized identifiers the vocabulary counts in a use path.
pub const TYPE_IDENT_PATTERN: &'static str = "\\b[A-Z]\\w*\\b";

/// The capitalized identifiers of a use path: the matches of
/// `TYPE_IDENT_PATTERN`.
pub open spec fn type_idents(path: Seq<char>) -> Seq<Seq<char>> {
    match regex_matches(TYPE_IDENT_PATTERN@, path) {
        Some(ms) => ms,
        None => Seq::empty(),
    }
}

/// Each crate of the fingerprint with its dependencies, in the fingerprint's
/// order.
pub open spec fn dep_lists_view(v: Seq<(String, Vec<String>)>) -> Seq<(Seq<char>, Seq<Seq<char>>)> {
    v.map_values(|p: (String, Vec<String>)| (p.0@, strings_view(p.1@)))
}

/// Every dependency named, in order.
pub open spec fn all_deps(v: Seq<(Seq<char>, Seq<Seq<char>>)>) -> Seq<Seq<char>>
    decreases v.len(),
{
    if v.len() == 0 {
        Seq::empty()
    } else {
        all_deps(v.drop_last()) + v.last().1
    }
}

/// The distinct names of `s`, in first-seen order.
pub open spec fn distinct(s: Seq<Seq<char>>) -> Seq<Seq<char>>
    decreases s.len(),
{
    if s.len() == 0 {
        Seq::empty()
    } else if distinct(s.drop_last()).contains(s.last()) {
        distinct(s.drop_last())
    } else {
        distinct(s.drop_last()).push(s.last())
    }
}

/// How often `x` occurs in `s`.
pub open spec fn occurrences(s: Seq<Seq<char>>, x: Seq<char>) -> nat
    decreases s.len(),
{
    if s.len() == 0 {
        0
    } else {
        occurrences(s.drop_last(), x) + if s.last() == x {
            1nat
        } else {
            0nat
        }
    }
}

/// The first of `cands` with the most occurrences in `s`.
pub open spec fn most_frequent(cands: Seq<Seq<char>>, s: Seq<Seq<char>>) -> Option<Seq<char>>
    decreases cands.len(),
{
    if cands.len() == 0 {
        None
    } else {
        match most_frequent(cands.drop_last(), s) {
            None => Some(cands.last()),
            Some(b) => if occurrences(s, cands.last()) > occurrences(s, b) {
                Some(cands.last())
            } else {
                Some(b)
            },
        }
    }
}

/// The names of `s` that are crates of the fingerprint.
pub open spec fn in_workspace(s: Seq<Seq<char>>, crates: Seq<(Seq<char>, Seq<Seq<char>>)>) -> Seq<Seq<char>>
    decreases s.len(),
{
    if s.len() == 0 {
        Seq::empty()
    } else if exists|i: int| 0 <= i < crates.len() && (#[trigger] crates[i]).0 == s.last() {
        in_workspace(s.drop_last(), crates).push(s.last())
    } else {
        in_workspace(s.drop_last(), crates)
    }
}

/// The core crate: the workspace crate most depended on (the first on
/// ties); when no dependency is a workspace crate, the most depended-on
/// dependency; none when nothing is depended on.
pub open spec fn core_crate(crates: Seq<(Seq<char>, Seq<Seq<char>>)>) -> Option<Seq<char>> {
    let deps = all_deps(crates);
    let ws = in_workspace(distinct(deps), crates);
    if ws.len() > 0 {
        most_frequent(ws, deps)
    } else {
        most_frequent(distinct(deps), deps)
    }
}

/// The bare name of an impl's type: before any `<`, after the last `::`,
/// trimmed.
pub open spec fn bare_type(t: Seq<char>) -> Seq<char> {
    trim(after_last(before_first(t, "<"@), "::"@))
}

/// The names the usage counts read: each impl's trait, each impl's bare
/// type name (when not empty) and each capitalized identifier of a
/// non-empty use path.
pub open spec fn trait_mentions(impls: Seq<FactRecord>) -> Seq<Seq<char>>
    decreases impls.len(),
{
    if impls.len() == 0 {
        Seq::empty()
    } else {
        match impls.last().trait_name {
            Some(t) => trait_mentions(impls.drop_last()).push(t@),
            None => trait_mentions(impls.drop_last()),
        }
    }
}

/// The type names the impls mention.
pub open spec fn impl_type_mentions(impls: Seq<FactRecord>) -> Seq<Seq<char>>
    decreases impls.len(),
{
    if impls.len() == 0 {
        Seq::empty()
    } else {
        let prev = impl_type_mentions(impls.drop_last());
        match impls.last().target_type {
            Some(t) => if bare_type(t@).len() > 0 {
                prev.push(bare_type(t@))
            } else {
                prev
            },
            None => prev,
        }
    }
}

/// The capitalized identifiers of the use paths.
pub open spec fn use_type_mentions(uses: Seq<FactRecord>) -> Seq<Seq<char>>
    decreases uses.len(),
{
    if uses.len() == 0 {
        Seq::empty()
    } else {
        let p = text_or_empty(uses.last().path);
        if p.len() == 0 {
            use_type_mentions(uses.drop_last())
        } else {
            use_type_mentions(uses.drop_last()) + type_idents(p)
        }
    }
}

/// The declarations of `core` in source files, in order.
pub open spec fn core_decls(ds: Seq<FactRecord>, core: Seq<char>) -> Seq<int>
    decreases ds.len(),
{
    if ds.len() == 0 {
        Seq::empty()
    } else if opt_view(ds.last().crate_name) == Some(core) && src_file_view(text_or_empty(ds.last().file)) {
        core_decls(ds.drop_last(), core).push(ds.len() - 1)
    } else {
        core_decls(ds.drop_last(), core)
    }
}

/// The ranking key of a declaration used `usage` times: most used first,
/// then by name.
pub open spec fn usage_key(d: FactRecord, usage: nat) -> KeyView {
    KeyView { num: -(usage as int), first: text_or_empty(d.name), second: Seq::empty(), tail: 0 }
}

/// The core crate's declarations (positions in `ds`) ranked by usage
/// (most first), then by name, equal ones in declaration order, each with
/// its usage count.
pub open spec fn ranked_decls(ds: Seq<FactRecord>, core: Seq<char>, mentions: Seq<Seq<char>>) -> Seq<(int, nat)> {
    let sel = core_decls(ds, core);
    let keys = sel.map_values(|i: int| usage_key(ds[i], occurrences(mentions, text_or_empty(ds[i].name))));
    stable_order(keys).map_values(|k: int| (sel[k], occurrences(mentions, text_or_empty(ds[sel[k]].name))))
}

/// The core vocabulary: the core crate, and its types and traits (as
/// positions in the type and trait lists) each with its usage count.
#[derive(Debug, Clone)]
pub struct CoreVocabulary {
    pub core: Option<String>,
    pub types: Vec<(usize, usize)>,
    pub traits: Vec<(usize, usize)>,
}

/// The value of a ranked list.
pub open spec fn ranked_view(v: Seq<(usize, usize)>) -> Seq<(int, nat)> {
    v.map_values(|p: (usize, usize)| (p.0 as int, p.1 as nat))
}

fn count_in(s: &Vec<String>, x: &str) -> (r: usize)
    ensures
        r == occurrences(strings_view(s@), x@),
{
    let ghost sv = strings_view(s@);
    let mut n: usize = 0;
    let mut i: usize = 0;
    while i < s.len()
        invariant
            i <= s@.len(),
            sv == strings_view(s@),
            n == occurrences(sv.take(i as int), x@),
            n <= i,
        decreases s@.len() - i,
    {
        proof {
            assert(sv.take(i + 1).drop_last() =~= sv.take(i as int));
            assert(sv.take(i + 1).last() == s@[i as int]@);
        }
        if str_eq(s[i].as_str(), x) {
            n = n + 1;
        }
        i = i + 1;
    }
    assert(sv.take(i as int) =~= sv);
    n
}

fn all_deps_exec(crates: &Vec<(String, Vec<String>)>) -> (r: Vec<String>)
    ensures
        strings_view(r@) == all_deps(dep_lists_view(crates@)),
{
    let ghost cv = dep_lists_view(crates@);
    let mut r: Vec<String> = Vec::new();
    let mut i: usize = 0;
    while i < crates.len()
        invariant
            i <= crates@.len(),
            cv == dep_lists_view(crates@),
            strings_view(r@) == all_deps(cv.take(i as int)),
        decreases crates@.len() - i,
    {
        proof {
            assert(cv.take(i + 1).drop_last() =~= cv.take(i as int));
            assert(cv.take(i + 1).last() == cv[i as int]);
        }
        let deps = &crates[i].1;
        let ghost start = strings_view(r@);
        let mut j: usize = 0;
        while j < deps.len()
            invariant
                j <= deps@.len(),
                strings_view(r@) == start + strings_view(deps@).take(j as int),
            decreases deps@.len() - j,
        {
            let ghost prev = strings_view(r@);
            r.push(deps[j].clone());
            assert(strings_view(r@) =~= prev.push(deps@[j as int]@));
            assert(strings_view(deps@).take(j + 1) =~= strings_view(deps@).take(j as int).push(deps@[j as int]@));
            assert(strings_view(r@) =~= start + strings_view(deps@).take(j + 1));
            j = j + 1;
        }
        assert(strings_view(deps@).take(j as int) =~= strings_view(deps@));
        i = i + 1;
    }
    assert(cv.take(i as int) =~= cv);
    r
}

/// The distinct strings of `s`, in first-seen order.
pub fn distinct_exec(s: &Vec<String>) -> (r: Vec<String>)
    ensures
        strings_view(r@) == distinct(strings_view(s@)),
{
    let ghost sv = strings_view(s@);
    let mut r: Vec<String> = Vec::new();
    let mut i: usize = 0;
    while i < s.len()
        invariant
            i <= s@.len(),
            sv == strings_view(s@),
            strings_view(r@) == distinct(sv.take(i as int)),
        decreases s@.len() - i,
    {
        proof {
            assert(sv.take(i + 1).drop_last() =~= sv.take(i as int));
            assert(sv.take(i + 1).last() == s@[i as int]@);
        }
        if !strings_contain(&r, s[i].as_str()) {
            let ghost before = strings_view(r@);
            r.push(s[i].clone());
            assert(strings_view(r@) =~= before.push(s@[i as int]@));
        }
        i = i + 1;
    }
    assert(sv.take(i as int) =~= sv);
    r
}

fn is_crate(crates: &Vec<(String, Vec<String>)>, x: &str) -> (r: bool)
    ensures
        r == exists|i: int| 0 <= i < crates@.len() && (#[trigger] dep_lists_view(crates@)[i]).0 == x@,
{
    let ghost cv = dep_lists_view(crates@);
    let mut i: usize = 0;
    while i < crates.len()
        invariant
            i <= crates@.len(),
            cv == dep_lists_view(crates@),
            forall|k: int| 0 <= k < i ==> (#[trigger] cv[k]).0 != x@,
        decreases crates@.len() - i,
    {
        if str_eq(crates[i].0.as_str(), x) {
            assert(cv[i as int].0 == x@);
            return true;
        }
        i = i + 1;
    }
    false
}

fn most_frequent_exec(cands: &Vec<String>, s: &Vec<String>) -> (r: Option<String>)
    ensures
        opt_view(r) == most_frequent(strings_view(cands@), strings_view(s@)),
{
    let ghost cv = strings_view(cands@);
    let mut best: Option<String> = None;
    let mut best_n: usize = 0;
    let mut i: usize = 0;
    while i < cands.len()
        invariant
            i <= cands@.len(),
            cv == strings_view(cands@),
            opt_view(best) == most_frequent(cv.take(i as int), strings_view(s@)),
            best matches Some(b) ==> best_n == occurrences(strings_view(s@), b@),
        decreases cands@.len() - i,
    {
        proof {
            assert(cv.take(i + 1).drop_last() =~= cv.take(i as int));
            assert(cv.take(i + 1).last() == cands@[i as int]@);
        }
        let n = count_in(s, cands[i].as_str());
        match &best {
            None => {
                best = Some(cands[i].clone());
                best_n = n;
            },
            Some(_) => {
                if n > best_n {
                    best = Some(cands[i].clone());
                    best_n = n;
                }
            },
        }
        i = i + 1;
    }
    assert(cv.take(i as int) =~= cv);
    best
}

/// The core crate of a fingerprint: the workspace crate its crates depend
/// on most (the first on ties), else the most depended-on dependency.
pub fn core_crate_exec(crates: &Vec<(String, Vec<String>)>) -> (r: Option<String>)
    ensures
        opt_view(r) == core_crate(dep_lists_view(crates@)),
{
    let deps = all_deps_exec(crates);
    let names = distinct_exec(&deps);
    let ghost nv = strings_view(names@);
    let ghost cv = dep_lists_view(crates@);
    let mut ws: Vec<String> = Vec::new();
    let mut i: usize = 0;
    while i < names.len()
        invariant
            i <= names@.len(),
            nv == strings_view(names@),
            cv == dep_lists_view(crates@),
            strings_view(ws@) == in_workspace(nv.take(i as int), cv),
        decreases names@.len() - i,
    {
        proof {
            assert(nv.take(i + 1).drop_last() =~= nv.take(i as int));
            assert(nv.take(i + 1).last() == names@[i as int]@);
        }
        if is_crate(crates, names[i].as_str()) {
            let ghost before = strings_view(ws@);
            ws.push(names[i].clone());
            assert(strings_view(ws@) =~= before.push(names@[i as int]@));
        }
        i = i + 1;
    }
    assert(nv.take(i as int) =~= nv);
    if ws.len() > 0 {
        most_frequent_exec(&ws, &deps)
    } else {
        most_frequent_exec(&names, &deps)
    }
}

fn trait_mentions_exec(impls: &Vec<FactRecord>) -> (r: Vec<String>)
    ensures
        strings_view(r@) == trait_mentions(impls@),
{
    let mut r: Vec<String> = Vec::new();
    let mut i: usize = 0;
    while i < impls.len()
        invariant
            i <= impls@.len(),
            strings_view(r@) == trait_mentions(impls@.take(i as int)),
        decreases impls@.len() - i,
    {
        proof {
            assert(impls@.take(i + 1).drop_last() =~= impls@.take(i as int));
            assert(impls@.take(i + 1).last() == impls@[i as int]);
        }
        if let Some(t) = &impls[i].trait_name {
            let ghost before = strings_view(r@);
            r.push(t.clone());
            assert(strings_view(r@) =~= before.push(t@));
        }
        i = i + 1;
    }
    assert(impls@.take(i as int) =~= impls@);
    r
}

fn bare_type_exec(t: &str) -> (r: String)
    ensures
        r@ == bare_type(t@),
{
    proof {
        reveal_strlit("<");
        reveal_strlit("::");
    }
    let cs = chars_of(t);
    let lt = chars_of("<");
    let colons = chars_of("::");
    let head = before_first_exec(&cs, &lt);
    let last = after_last_exec(&head, &colons);
    string_of(&trim_exec(&last))
}

fn type_mentions_exec(impls: &Vec<FactRecord>, uses: &Vec<FactRecord>) -> (r: Vec<String>)
    ensures
        strings_view(r@) == impl_type_mentions(impls@) + use_type_mentions(uses@),
{
    let mut r: Vec<String> = Vec::new();
    let mut i: usize = 0;
    while i < impls.len()
        invariant
            i <= impls@.len(),
            strings_view(r@) == impl_type_mentions(impls@.take(i as int)),
        decreases impls@.len() - i,
    {
        proof {
            assert(impls@.take(i + 1).drop_last() =~= impls@.take(i as int));
            assert(impls@.take(i + 1).last() == impls@[i as int]);
        }
        if let Some(t) = &impls[i].target_type {
            let b = bare_type_exec(t.as_str());
            if !b.as_str().is_empty() {
                let ghost before = strings_view(r@);
                r.push(b);
                assert(strings_view(r@) =~= before.push(bare_type(t@)));
            }
        }
        i = i + 1;
    }
    assert(impls@.take(i as int) =~= impls@);
    let ghost base = strings_view(r@);
    let mut j: usize = 0;
    while j < uses.len()
        invariant
            j <= uses@.len(),
            base == impl_type_mentions(impls@),
            strings_view(r@) == base + use_type_mentions(uses@.take(j as int)),
        decreases uses@.len() - j,
    {
        proof {
            assert(uses@.take(j + 1).drop_last() =~= uses@.take(j as int));
            assert(uses@.take(j + 1).last() == uses@[j as int]);
        }
        let p = owned_or_empty(&uses[j].path);
        if !p.as_str().is_empty() {
            let ghost before = strings_view(r@);
            let found = find_all(TYPE_IDENT_PATTERN, p.as_str());
            let ms: Vec<String> = match found {
                Some(v) => v,
                None => Vec::new(),
            };
            proof {
                if found is None {
                    assert(strings_view(ms@) =~= Seq::<Seq<char>>::empty());
                }
                assert(strings_view(ms@) == type_idents(p@));
            }
            let mut k: usize = 0;
            while k < ms.len()
                invariant
                    k <= ms@.len(),
                    strings_view(r@) == before + strings_view(ms@).take(k as int),
                decreases ms@.len() - k,
            {
                let ghost prev = strings_view(r@);
                r.push(ms[k].clone());
                assert(strings_view(r@) =~= prev.push(ms@[k as int]@));
                assert(strings_view(ms@).take(k + 1) =~= strings_view(ms@).take(k as int).push(ms@[k as int]@));
                assert(strings_view(r@) =~= before + strings_view(ms@).take(k + 1));
                k = k + 1;
            }
            assert(strings_view(ms@).take(k as int) =~= strings_view(ms@));
            assert(base + use_type_mentions(uses@.take(j + 1)) =~= base + use_type_mentions(uses@.take(j as int))
                + type_idents(p@));
        }
        j = j + 1;
    }
    assert(uses@.take(j as int) =~= uses@);
    r
}

fn core_decls_exec(ds: &Vec<FactRecord>, core: &str) -> (r: Vec<usize>)
    ensures
        positions_view(r@) == core_decls(ds@, core@),
        forall|k: int| 0 <= k < r@.len() ==> r@[k] < ds@.len(),
{
    let mut r: Vec<usize> = Vec::new();
    let mut i: usize = 0;
    while i < ds.len()
        invariant
            i <= ds@.len(),
            positions_view(r@) == core_decls(ds@.take(i as int), core@),
            forall|k: int| 0 <= k < r@.len() ==> r@[k] < i,
        decreases ds@.len() - i,
    {
        proof {
            assert(ds@.take(i + 1).drop_last() =~= ds@.take(i as int));
            assert(ds@.take(i + 1).last() == ds@[i as int]);
        }
        let in_core = match &ds[i].crate_name {
            Some(c) => str_eq(c.as_str(), core),
            None => false,
        };
        let file = owned_or_empty(&ds[i].file);
        if in_core && is_src_file(file.as_str()) {
            let ghost before = positions_view(r@);
            r.push(i);
            assert(positions_view(r@) =~= before.push(i as int));
        }
        i = i + 1;
    }
    assert(ds@.take(i as int) =~= ds@);
    r
}

proof fn lemma_occurrences_bounded(s: Seq<Seq<char>>, x: Seq<char>)
    ensures
        occurrences(s, x) <= s.len(),
    decreases s.len(),
{
    if s.len() > 0 {
        lemma_occurrences_bounded(s.drop_last(), x);
    }
}

fn rank_decls(ds: &Vec<FactRecord>, core: &str, mentions: &Vec<String>) -> (r: Vec<(usize, usize)>)
    ensures
        ranked_view(r@) == ranked_decls(ds@, core@, strings_view(mentions@)),
        forall|k: int| 0 <= k < r@.len() ==> (#[trigger] r@[k]).0 < ds@.len(),
{
    let ghost mv = strings_view(mentions@);
    let sel = core_decls_exec(ds, core);
    let ghost sv = positions_view(sel@);
    let mut keys: Vec<SortKey> = Vec::new();
    let mut usages: Vec<usize> = Vec::new();
    let mut i: usize = 0;
    while i < sel.len()
        invariant
            i <= sel@.len(),
            sv == positions_view(sel@),
            mv == strings_view(mentions@),
            forall|k: int| 0 <= k < sel@.len() ==> sel@[k] < ds@.len(),
            usages@.len() == i,
            forall|k: int| 0 <= k < i ==> usages@[k] == occurrences(mv, text_or_empty(ds@[sv[k]].name)),
            keys_view(keys@) == sv.take(i as int).map_values(
                |j: int| usage_key(ds@[j], occurrences(mv, text_or_empty(ds@[j].name))),
            ),
        decreases sel@.len() - i,
    {
        let d = &ds[sel[i]];
        let name = owned_or_empty(&d.name);
        let n = count_in(mentions, name.as_str());
        proof {
            lemma_occurrences_bounded(mv, name@);
        }
        let ghost before = keys_view(keys@);
        let key = SortKey { num: 0 - (n as i128), first: name, second: String::new(), tail: 0 };
        keys.push(key);
        usages.push(n);
        proof {
            assert(key@ == usage_key(ds@[sv[i as int]], occurrences(mv, text_or_empty(ds@[sv[i as int]].name))));
            assert(keys_view(keys@) =~= before.push(key@));
            assert(sv.take(i + 1) =~= sv.take(i as int).push(sv[i as int]));
            assert(sv.take(i + 1).map_values(|j: int| usage_key(ds@[j], occurrences(mv, text_or_empty(ds@[j].name))))
                =~= sv.take(i as int).map_values(
                |j: int| usage_key(ds@[j], occurrences(mv, text_or_empty(ds@[j].name))),
            ).push(key@));
        }
        i = i + 1;
    }
    assert(sv.take(i as int) =~= sv);
    let ord = stable_order_exec(&keys);
    let ghost ov = positions_view(ord@);
    let ghost want = ranked_decls(ds@, core@, mv);
    let mut r: Vec<(usize, usize)> = Vec::new();
    let mut j: usize = 0;
    while j < ord.len()
        invariant
            j <= ord@.len(),
            ord@.len() == sel@.len(),
            usages@.len() == sel@.len(),
            ov == positions_view(ord@),
            ov == stable_order(keys_view(keys@)),
            keys_view(keys@) == sv.map_values(|j: int| usage_key(ds@[j], occurrences(mv, text_or_empty(ds@[j].name)))),
            forall|k: int| 0 <= k < ord@.len() ==> ord@[k] < sel@.len(),
            sv == positions_view(sel@),
            sv == core_decls(ds@, core@),
            mv == strings_view(mentions@),
            forall|k: int| 0 <= k < sel@.len() ==> usages@[k] == occurrences(mv, text_or_empty(ds@[sv[k]].name)),
            want == ranked_decls(ds@, core@, mv),
            ranked_view(r@) == want.take(j as int),
            forall|k: int| 0 <= k < sel@.len() ==> sel@[k] < ds@.len(),
            forall|m: int| 0 <= m < r@.len() ==> (#[trigger] r@[m]).0 < ds@.len(),
        decreases ord@.len() - j,
    {
        let k = ord[j];
        let ghost before = ranked_view(r@);
        r.push((sel[k], usages[k]));
        proof {
            assert(want[j as int] == (sv[ov[j as int]], occurrences(mv, text_or_empty(ds@[sv[ov[j as int]]].name))));
            assert(ranked_view(r@) =~= before.push(want[j as int]));
            assert(want.take(j + 1) =~= want.take(j as int).push(want[j as int]));
        }
        j = j + 1;
    }
    assert(want.take(j as int) =~= want);
    r
}

/// The vocabulary of a core crate, given its name: its types and traits
/// declared in source files, each ranked by usage (most used first, then by
/// name, equal ones in declaration order). A type's usage counts impls of
/// it (by bare type name) and capitalized identifiers naming it in use
/// paths; a trait's usage counts impls of it.
pub open spec fn vocabulary_view(
    core: Option<Seq<char>>,
    types: Seq<FactRecord>,
    traits: Seq<FactRecord>,
    impls: Seq<FactRecord>,
    uses: Seq<FactRecord>,
) -> (Seq<(int, nat)>, Seq<(int, nat)>) {
    let c = match core {
        Some(c) => c,
        None => Seq::empty(),
    };
    (
        ranked_decls(types, c, impl_type_mentions(impls) + use_type_mentions(uses)),
        ranked_decls(traits, c, trait_mentions(impls)),
    )
}

/// The core vocabulary: the most depended-on crate of the fingerprint (a
/// workspace crate when any dependency is one; the first on ties) and its
/// types and traits declared in source files, ranked by usage with each
/// usage count.
pub fn core_vocabulary(
    per_crate: &Vec<(String, Vec<String>)>,
    types: &Vec<FactRecord>,
    traits: &Vec<FactRecord>,
    impls: &Vec<FactRecord>,
    uses: &Vec<FactRecord>,
) -> (r: CoreVocabulary)
    ensures
        opt_view(r.core) == core_crate(dep_lists_view(per_crate@)),
        (ranked_view(r.types@), ranked_view(r.traits@)) == vocabulary_view(
            core_crate(dep_lists_view(per_crate@)),
            types@,
            traits@,
            impls@,
            uses@,
        ),
        forall|k: int| 0 <= k < r.types@.len() ==> (#[trigger] r.types@[k]).0 < types@.len(),
        forall|k: int| 0 <= k < r.traits@.len() ==> (#[trigger] r.traits@[k]).0 < traits@.len(),
{
    let core = core_crate_exec(per_crate);
    let core_name = owned_or_empty(&core);
    let type_mentions = type_mentions_exec(impls, uses);
    let trait_ms = trait_mentions_exec(impls);
    let ranked_types = rank_decls(types, core_name.as_str(), &type_mentions);
    let ranked_traits = rank_decls(traits, core_name.as_str(), &trait_ms);
    CoreVocabulary { core, types: ranked_types, traits: ranked_traits }
}

proof fn lemma_core_decls_props(ds: Seq<FactRecord>, core: Seq<char>)
    ensures
        forall|k: int| 0 <= k < core_decls(ds, core).len() ==> {
            let i = #[trigger] core_decls(ds, core)[k];
            &&& 0 <= i < ds.len()
            &&& opt_view(ds[i].crate_name) == Some(core)
            &&& src_file_view(text_or_empty(ds[i].file))
        },
    decreases ds.len(),
{
    if ds.len() > 0 {
        lemma_core_decls_props(ds.drop_last(), core);
        let prev = core_decls(ds.drop_last(), core);
        assert forall|k: int| 0 <= k < prev.len() implies #[trigger] ds.drop_last()[prev[k]] == ds[prev[k]] by {}
    }
}

/// The ranked declarations of a core crate are its declarations in source
/// files, each with its usage count, listed by usage (most used first) and,
/// at equal usage, by name (no name before a smaller one).
pub proof fn lemma_ranked_decls_law(ds: Seq<FactRecord>, core: Seq<char>, mentions: Seq<Seq<char>>)
    ensures
        forall|k: int| 0 <= k < ranked_decls(ds, core, mentions).len() ==> {
            let (i, u) = #[trigger] ranked_decls(ds, core, mentions)[k];
            &&& 0 <= i < ds.len()
            &&& opt_view(ds[i].crate_name) == Some(core)
            &&& src_file_view(text_or_empty(ds[i].file))
            &&& u == occurrences(mentions, text_or_empty(ds[i].name))
        },
        forall|a: int, b: int|
            0 <= a < b < ranked_decls(ds, core, mentions).len() ==> {
                let x = #[trigger] ranked_decls(ds, core, mentions)[a];
                let y = #[trigger] ranked_decls(ds, core, mentions)[b];
                y.1 <= x.1 && (y.1 == x.1 ==> !seq_lt(text_or_empty(ds[y.0].name), text_or_empty(ds[x.0].name)))
            },
{
    let sel = core_decls(ds, core);
    let keys = sel.map_values(|i: int| usage_key(ds[i], occurrences(mentions, text_or_empty(ds[i].name))));
    lemma_core_decls_props(ds, core);
    lemma_stable_order_range(keys, keys.len() as int);
    lemma_stable_order_sorted(keys, keys.len() as int);
    let ord = stable_order(keys);
    let res = ranked_decls(ds, core, mentions);
    assert forall|k: int| 0 <= k < res.len() implies {
        let (i, u) = #[trigger] res[k];
        &&& 0 <= i < ds.len()
        &&& opt_view(ds[i].crate_name) == Some(core)
        &&& src_file_view(text_or_empty(ds[i].file))
        &&& u == occurrences(mentions, text_or_empty(ds[i].name))
    } by {
        assert(0 <= ord[k] < sel.len());
        assert(res[k].0 == sel[ord[k]]);
    }
    assert forall|a: int, b: int| 0 <= a < b < res.len() implies {
        let x = #[trigger] res[a];
        let y = #[trigger] res[b];
        y.1 <= x.1 && (y.1 == x.1 ==> !seq_lt(text_or_empty(ds[y.0].name), text_or_empty(ds[x.0].name)))
    } by {
        assert(0 <= ord[a] < sel.len() && 0 <= ord[b] < sel.len());
        assert(!key_lt(keys[ord[b]], keys[ord[a]]));
        assert(keys[ord[a]] == usage_key(ds[sel[ord[a]]], res[a].1));
        assert(keys[ord[b]] == usage_key(ds[sel[ord[b]]], res[b].1));
    }
}

/// A ranked list of declarations of crate `core`: each a source declaration
/// of that crate, listed by usage (most used first) and, at equal usage, by
/// name.
pub open spec fn ranked_ok(ds: Seq<FactRecord>, core: Seq<char>, res: Seq<(int, nat)>) -> bool {
    &&& forall|k: int| 0 <= k < res.len() ==> {
        let i = (#[trigger] res[k]).0;
        &&& 0 <= i < ds.len()
        &&& opt_view(ds[i].crate_name) == Some(core)
        &&& src_file_view(text_or_empty(ds[i].file))
    }
    &&& forall|a: int, b: int|
        0 <= a < b < res.len() ==> {
            let x = #[trigger] res[a];
            let y = #[trigger] res[b];
            y.1 <= x.1 && (y.1 == x.1 ==> !seq_lt(text_or_empty(ds[y.0].name), text_or_empty(ds[x.0].name)))
        }
}

/// The core vocabulary's types and traits are the core crate's source
/// declarations, listed by usage (most used first) and, at equal usage, by
/// name.
pub proof fn lemma_vocabulary_ranked(
    core: Option<Seq<char>>,
    types: Seq<FactRecord>,
    traits: Seq<FactRecord>,
    impls: Seq<FactRecord>,
    uses: Seq<FactRecord>,
)
    ensures
        ({
            let c = match core {
                Some(c) => c,
                None => Seq::empty(),
            };
            &&& ranked_ok(types, c, vocabulary_view(core, types, traits, impls, uses).0)
            &&& ranked_ok(traits, c, vocabulary_view(core, types, traits, impls, uses).1)
        }),
{
    let c = match core {
        Some(c) => c,
        None => Seq::empty(),
    };
    lemma_ranked_decls_law(types, c, impl_type_mentions(impls) + use_type_mentions(uses));
    lemma_ranked_decls_law(traits, c, trait_mentions(impls));
}

/// Whether `x` names a crate of the fingerprint.
pub open spec fn workspace_crate(crates: Seq<(Seq<char>, Seq<Seq<char>>)>, x: Seq<char>) -> bool {
    exists|i: int| 0 <= i < crates.len() && (#[trigger] crates[i]).0 == x
}

/// Whether some dependency names a crate of the fingerprint.
pub open spec fn has_workspace_dep(crates: Seq<(Seq<char>, Seq<Seq<char>>)>) -> bool {
    exists|x: Seq<char>| #[trigger] all_deps(crates).contains(x) && workspace_crate(crates, x)
}

/// The names the core crate is chosen from, in first-seen order: the
/// dependencies that are workspace crates, or every dependency when none is.
pub open spec fn core_candidates(crates: Seq<(Seq<char>, Seq<Seq<char>>)>) -> Seq<Seq<char>> {
    let ws = in_workspace(distinct(all_deps(crates)), crates);
    if ws.len() > 0 {
        ws
    } else {
        distinct(all_deps(crates))
    }
}

proof fn lemma_push_contains(p: Seq<Seq<char>>, l: Seq<char>, x: Seq<char>)
    ensures
        p.push(l).contains(x) <==> p.contains(x) || x == l,
{
    if p.push(l).contains(x) {
        let k = choose|k: int| 0 <= k < p.push(l).len() && p.push(l)[k] == x;
        if k < p.len() {
            assert(p[k] == x);
        }
    }
    if p.contains(x) {
        let k = choose|k: int| 0 <= k < p.len() && p[k] == x;
        assert(p.push(l)[k] == x);
    }
    if x == l {
        assert(p.push(l)[p.len() as int] == x);
    }
}

proof fn lemma_distinct_contains(s: Seq<Seq<char>>)
    ensures
        forall|x: Seq<char>| #[trigger] distinct(s).contains(x) <==> s.contains(x),
    decreases s.len(),
{
    if s.len() > 0 {
        let d = s.drop_last();
        lemma_distinct_contains(d);
        assert(d.push(s.last()) =~= s);
        assert forall|x: Seq<char>| #[trigger] distinct(s).contains(x) <==> s.contains(x) by {
            lemma_push_contains(d, s.last(), x);
            lemma_push_contains(distinct(d), s.last(), x);
            lemma_push_contains(distinct(d), s.last(), s.last());
        }
    }
}

proof fn lemma_in_workspace_contains(s: Seq<Seq<char>>, crates: Seq<(Seq<char>, Seq<Seq<char>>)>)
    ensures
        forall|x: Seq<char>| #[trigger] in_workspace(s, crates).contains(x) <==> s.contains(x) && workspace_crate(crates, x),
    decreases s.len(),
{
    if s.len() > 0 {
        let d = s.drop_last();
        lemma_in_workspace_contains(d, crates);
        assert(d.push(s.last()) =~= s);
        assert forall|x: Seq<char>| #[trigger] in_workspace(s, crates).contains(x) <==> s.contains(x) && workspace_crate(
            crates,
            x,
        ) by {
            lemma_push_contains(d, s.last(), x);
            lemma_push_contains(in_workspace(d, crates), s.last(), x);
        }
    }
}

proof fn lemma_most_frequent(cands: Seq<Seq<char>>, s: Seq<Seq<char>>)
    ensures
        most_frequent(cands, s) is None <==> cands.len() == 0,
        most_frequent(cands, s) matches Some(b) ==> exists|k: int|
            0 <= k < cands.len() && cands[k] == b && (forall|j: int|
                0 <= j < cands.len() ==> occurrences(s, #[trigger] cands[j]) <= occurrences(s, b)) && (forall|j: int|
                0 <= j < k ==> occurrences(s, #[trigger] cands[j]) < occurrences(s, b)),
    decreases cands.len(),
{
    if cands.len() > 0 {
        let d = cands.drop_last();
        lemma_most_frequent(d, s);
        let last = cands.len() - 1;
        match most_frequent(d, s) {
            None => {
                assert(cands[last] == cands.last());
            },
            Some(b) => {
                let k = choose|k: int|
                    0 <= k < d.len() && d[k] == b && (forall|j: int|
                        0 <= j < d.len() ==> occurrences(s, #[trigger] d[j]) <= occurrences(s, b)) && (forall|j: int|
                        0 <= j < k ==> occurrences(s, #[trigger] d[j]) < occurrences(s, b));
                if occurrences(s, cands.last()) > occurrences(s, b) {
                    assert forall|j: int| 0 <= j < cands.len() implies occurrences(s, #[trigger] cands[j]) <= occurrences(
                        s,
                        cands.last(),
                    ) by {
                        if j < last {
                            assert(cands[j] == d[j]);
                        }
                    }
                    assert forall|j: int| 0 <= j < last implies occurrences(s, #[trigger] cands[j]) < occurrences(
                        s,
                        cands.last(),
                    ) by {
                        assert(cands[j] == d[j]);
                    }
                    assert(cands[last] == cands.last());
                } else {
                    assert(cands[k] == b);
                    assert forall|j: int| 0 <= j < cands.len() implies occurrences(s, #[trigger] cands[j]) <= occurrences(
                        s,
                        b,
                    ) by {
                        if j < last {
                            assert(cands[j] == d[j]);
                        }
                    }
                    assert forall|j: int| 0 <= j < k implies occurrences(s, #[trigger] cands[j]) < occurrences(s, b) by {
                        assert(cands[j] == d[j]);
                    }
                }
            },
        }
    }
}

/// The core crate's choice: there is none exactly when no crate lists a
/// dependency. The candidates are the listed dependencies that are
/// workspace crates, or every listed dependency when none is, in
/// first-seen order; the core crate is the candidate depended on most
/// often, the first in that order on ties.
pub proof fn lemma_core_crate_choice(crates: Seq<(Seq<char>, Seq<Seq<char>>)>)
    ensures
        core_crate(crates) is None <==> all_deps(crates).len() == 0,
        forall|x: Seq<char>| #[trigger]
            core_candidates(crates).contains(x) <==> all_deps(crates).contains(x) && (has_workspace_dep(crates)
                ==> workspace_crate(crates, x)),
        core_crate(crates) matches Some(c) ==> exists|k: int|
            0 <= k < core_candidates(crates).len() && core_candidates(crates)[k] == c && (forall|j: int|
                0 <= j < core_candidates(crates).len() ==> occurrences(all_deps(crates), #[trigger] core_candidates(crates)[j])
                    <= occurrences(all_deps(crates), c)) && (forall|j: int|
                0 <= j < k ==> occurrences(all_deps(crates), #[trigger] core_candidates(crates)[j]) < occurrences(
                    all_deps(crates),
                    c,
                )),
{
    let deps = all_deps(crates);
    let dd = distinct(deps);
    let ws = in_workspace(dd, crates);
    lemma_distinct_contains(deps);
    lemma_in_workspace_contains(dd, crates);
    let cands = core_candidates(crates);
    assert(core_crate(crates) == most_frequent(cands, deps));
    lemma_most_frequent(cands, deps);
    if ws.len() > 0 {
        assert(ws.contains(ws[0]));
        assert(deps.contains(ws[0]) && workspace_crate(crates, ws[0]));
        assert(has_workspace_dep(crates));
    } else {
        assert forall|x: Seq<char>| !(#[trigger] deps.contains(x) && workspace_crate(crates, x)) by {
            if deps.contains(x) && workspace_crate(crates, x) {
                assert(ws.contains(x));
            }
        }
        assert(!has_workspace_dep(crates));
    }
    if deps.len() > 0 {
        assert(deps.contains(deps[0]));
        assert(dd.contains(deps[0]));
    } else {
        assert(!dd.contains(dd[0]) || dd.len() == 0);
    }
    assert forall|x: Seq<char>| #[trigger]
        core_candidates(crates).contains(x) <==> deps.contains(x) && (has_workspace_dep(crates) ==> workspace_crate(
            crates,
            x,
        )) by {
        if has_workspace_dep(crates) {
            let w = choose|w: Seq<char>| #[trigger] deps.contains(w) && workspace_crate(crates, w);
            assert(ws.contains(w));
        }
    }
}

} // verus!
