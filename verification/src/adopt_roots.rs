//! The foreign roots a workspace adopts: the external crates its `pub use`
//! re-exports make part of its own API, each with the forms it is adopted
//! in, its locked version and its registry checkout.

use vstd::prelude::*;
use indexmap::IndexMap;
use crate::adopt::AdoptedRoot;
use crate::assoc::{first_value, lemma_first_value_prefix, lemma_first_value_step};
use crate::crate_map::{crate_entries, crate_get};
use crate::fingerprint::CrateInfo;
use crate::lexical::{trim, trim_exec, underscored, underscored_exec};
use crate::metrics::text_or_empty;
use crate::resolution::{ResolveVocab, VocabView, opt_view, pair_lookup, pairs_view, resolve_root_view, strings_contain, strings_view, vocab_of};
use crate::sorting::{sort_strings, sorted_view};
use crate::text::{chars_of, lemma_seq_lt_total_order, seq_lt, contains_seq, push_str, starts_with, str_contains, str_eq, str_starts_with, string_of};
use crate::usage::{char_is_uppercase, in_examples, in_examples_exec, upper_char};
use crate::use_class::{is_scaffolding, lowercase, scaffolding_rule};
use crate::use_tree::{LeafView, UseLeaf, colons, leaf_views, parse_use_leaves, parse_view, use_path_defined, use_path_is_defined};

verus! {

/// One `use` fact as root adoption reads it.
#[derive(Debug, Clone)]
pub struct ReexportUse {
    pub file: Option<String>,
    pub crate_name: Option<String>,
    pub path: Option<String>,
    pub reexport: bool,
    pub doc_hidden: bool,
}

/// The use facts root adoption reads.
#[derive(Debug, Clone)]
pub struct AdoptFacts {
    pub uses: Vec<ReexportUse>,
}

/// The value of an adopted root while the uses are read.
pub ghost struct RootView {
    pub root: Seq<char>,
    pub package: Seq<char>,
    pub namespace: bool,
    pub globs: Seq<Seq<char>>,
    pub leaves: Seq<(Seq<char>, Seq<char>)>,
    pub sites: nat,
}

/// The read part of an adopted root.
pub open spec fn root_view(a: AdoptedRoot) -> RootView {
    RootView {
        root: a.root@,
        package: a.package@,
        namespace: a.namespace,
        globs: strings_view(a.globs@),
        leaves: pairs_view(a.leaves@),
        sites: a.sites as nat,
    }
}

/// The read parts of a list of adopted roots.
pub open spec fn roots_view(v: Seq<AdoptedRoot>) -> Seq<RootView> {
    v.map_values(|a: AdoptedRoot| root_view(a))
}

/// `crate`, `self` and `super`: roots that name the workspace itself.
pub open spec fn is_lang_root(r: Seq<char>) -> bool {
    r == "crate"@ || r == "self"@ || r == "super"@
}

/// `std`, `core` and `alloc`: the reader's floor, never adopted.
pub open spec fn is_std_root(r: Seq<char>) -> bool {
    r == "std"@ || r == "core"@ || r == "alloc"@
}

/// Whether crate `using` is a scaffolding crate of the workspace.
pub open spec fn scaffolding_crate(cs: Seq<(Seq<char>, CrateInfo)>, using: Seq<char>) -> bool {
    match first_value(cs, using) {
        Some(info) => scaffolding_rule(lowercase(using), lowercase(info.dir@)),
        None => false,
    }
}

/// The package of the first dependency rename whose binding is `root` (or
/// spells `norm` with `-` read as `_`).
pub open spec fn first_rename(rs: Seq<(Seq<char>, Seq<char>)>, root: Seq<char>, norm: Seq<char>) -> Option<Seq<char>>
    decreases rs.len(),
{
    if rs.len() == 0 {
        None
    } else if rs[0].0 == root || underscored(rs[0].0) == norm {
        Some(rs[0].1)
    } else {
        first_rename(rs.drop_first(), root, norm)
    }
}

/// The package behind root `root` in crate `using`: its dependency rename,
/// else the root itself.
pub open spec fn rename_package(cs: Seq<(Seq<char>, CrateInfo)>, using: Seq<char>, root: Seq<char>) -> Seq<char> {
    match first_value(cs, using) {
        Some(info) => match first_rename(pairs_view(info.renames@), root, underscored(root)) {
            Some(p) => p,
            None => root,
        },
        None => root,
    }
}

/// Whether the workspace has a crate named `p` (or `p` with `-` read as `_`).
pub open spec fn workspace_package(cs: Seq<(Seq<char>, CrateInfo)>, p: Seq<char>) -> bool {
    first_value(cs, p) is Some || first_value(cs, underscored(p)) is Some
}

/// A use path without one leading `::`, after trimming.
pub open spec fn unrooted(path: Seq<char>) -> Seq<char> {
    let t = trim(path);
    if starts_with(t, colons()) {
        t.skip(2)
    } else {
        t
    }
}

/// What an adopting use contributes: the normalized root, the package, whether
/// it adopts the whole crate, its leaves and its written root. `None` for a
/// use that adopts nothing: not a re-export, doc-hidden, in an examples
/// directory, in no crate or a scaffolding crate, without a path or with one
/// the grammar cannot read, rooted at nothing, at the workspace itself, at
/// `std`/`core`/`alloc` or at an uppercase (type) name, or resolving to a
/// workspace crate (directly or through a rename).
pub open spec fn adopt_parse(u: ReexportUse, cs: Seq<(Seq<char>, CrateInfo)>) -> Option<
    (Seq<char>, Seq<char>, bool, Seq<LeafView>, Seq<char>),
> {
    let using = text_or_empty(u.crate_name);
    if !u.reexport || u.doc_hidden || in_examples(text_or_empty(u.file)) || using.len() == 0 || scaffolding_crate(
        cs,
        using,
    ) {
        None
    } else {
        match u.path {
            None => None,
            Some(p) => if !use_path_defined(p@) {
                None
            } else {
                let (root, leaves) = parse_view(p@);
                if root.len() == 0 || is_lang_root(root) || is_std_root(root) || upper_char(root[0]) {
                    None
                } else if resolve_root_view(vocab_of(cs), using, root) is Some {
                    None
                } else {
                    let package = rename_package(cs, using, root);
                    if workspace_package(cs, package) {
                        None
                    } else {
                        Some((underscored(root), package, !contains_seq(unrooted(p@), colons()), leaves, root))
                    }
                }
            },
        }
    }
}

/// The root after one more leaf: a glob adds the module path below the root
/// it imports from (empty for the root itself), a named leaf of a path below
/// the crate adds its (source, binding) pair; each only once.
pub open spec fn add_leaf(e: RootView, l: LeafView, root: Seq<char>, crate_level: bool) -> RootView {
    match l {
        LeafView::Glob { parent } => {
            let below = match parent {
                Some(p) => if p == root {
                    Seq::empty()
                } else {
                    p
                },
                None => Seq::empty(),
            };
            if e.globs.contains(below) {
                e
            } else {
                RootView { globs: e.globs.push(below), ..e }
            }
        },
        LeafView::Named { binding, source } => if crate_level {
            e
        } else {
            let src = match source {
                Some(s) => s,
                None => binding,
            };
            if e.leaves.contains((src, binding)) {
                e
            } else {
                RootView { leaves: e.leaves.push((src, binding)), ..e }
            }
        },
    }
}

/// The root after the leaves `ls`, in order.
pub open spec fn add_leaves(e: RootView, ls: Seq<LeafView>, root: Seq<char>, crate_level: bool) -> RootView
    decreases ls.len(),
{
    if ls.len() == 0 {
        e
    } else {
        add_leaf(add_leaves(e, ls.drop_last(), root, crate_level), ls.last(), root, crate_level)
    }
}

/// A new root entry.
pub open spec fn fresh_root(norm: Seq<char>, package: Seq<char>) -> RootView {
    RootView { root: norm, package, namespace: false, globs: Seq::empty(), leaves: Seq::empty(), sites: 0 }
}

/// The position of the root keyed `k`.
pub open spec fn root_pos(t: Seq<RootView>, k: Seq<char>) -> Option<int>
    decreases t.len(),
{
    if t.len() == 0 {
        None
    } else {
        match root_pos(t.drop_last(), k) {
            Some(i) => Some(i),
            None => if t.last().root == k {
                Some(t.len() - 1)
            } else {
                None
            },
        }
    }
}

/// The roots after one more use: an adopting use counts one more site on
/// its root (created with its package at its first use), marks a
/// crate-level adoption as a namespace, and adds its leaves.
pub open spec fn adopt_step(t: Seq<RootView>, u: ReexportUse, cs: Seq<(Seq<char>, CrateInfo)>) -> Seq<RootView> {
    match adopt_parse(u, cs) {
        None => t,
        Some((norm, package, cl, ls, root)) => match root_pos(t, norm) {
            Some(i) => t.update(
                i,
                add_leaves(RootView { sites: t[i].sites + 1, namespace: t[i].namespace || cl, ..t[i] }, ls, root, cl),
            ),
            None => t.push(
                add_leaves(
                    RootView { sites: 1, namespace: cl, ..fresh_root(norm, package) },
                    ls,
                    root,
                    cl,
                ),
            ),
        },
    }
}

/// The roots after the uses `us`, in order.
pub open spec fn adopt_fold(us: Seq<ReexportUse>, cs: Seq<(Seq<char>, CrateInfo)>) -> Seq<RootView>
    decreases us.len(),
{
    if us.len() == 0 {
        Seq::empty()
    } else {
        adopt_step(adopt_fold(us.drop_last(), cs), us.last(), cs)
    }
}

/// `s` with every `_` replaced by `-`.
pub open spec fn hyphenated(s: Seq<char>) -> Seq<char> {
    s.map_values(|c: char| if c == '_' { '-' } else { c })
}

/// The value of a lock table.
pub open spec fn lock_view(v: Seq<(String, Vec<String>)>) -> Seq<(Seq<char>, Seq<Seq<char>>)> {
    v.map_values(|e: (String, Vec<String>)| (e.0@, strings_view(e.1@)))
}

/// The value of a finished adopted root.
pub ghost struct AdoptedView {
    pub root: Seq<char>,
    pub package: Seq<char>,
    pub version: Seq<char>,
    pub versions: Seq<Seq<char>>,
    pub checkout: Option<Seq<char>>,
    pub namespace: bool,
    pub globs: Seq<Seq<char>>,
    pub leaves: Seq<(Seq<char>, Seq<char>)>,
    pub sites: nat,
}

/// The value of an adopted root.
pub open spec fn adopted_view(a: AdoptedRoot) -> AdoptedView {
    AdoptedView {
        root: a.root@,
        package: a.package@,
        version: a.version@,
        versions: strings_view(a.versions@),
        checkout: opt_view(a.checkout),
        namespace: a.namespace,
        globs: strings_view(a.globs@),
        leaves: pairs_view(a.leaves@),
        sites: a.sites as nat,
    }
}

/// The values of a list of adopted roots.
pub open spec fn adopted_views(v: Seq<AdoptedRoot>) -> Seq<AdoptedView> {
    v.map_values(|a: AdoptedRoot| adopted_view(a))
}

/// A root pinned to the lock: the package (or its hyphenated spelling) the
/// lock lists, with its versions, the first as the version; the checkout of
/// `package-version` when there is a version.
pub open spec fn pinned(
    e: RootView,
    lock: Seq<(Seq<char>, Seq<Seq<char>>)>,
    checkouts: Seq<(Seq<char>, Seq<char>)>,
) -> AdoptedView {
    let (package, versions) = match first_value(lock, e.package) {
        Some(vs) => (e.package, vs),
        None => match first_value(lock, hyphenated(e.package)) {
            Some(vs) => (hyphenated(e.package), vs),
            None => (e.package, Seq::<Seq<char>>::empty()),
        },
    };
    let version = if versions.len() > 0 {
        versions[0]
    } else {
        Seq::empty()
    };
    AdoptedView {
        root: e.root,
        package,
        version,
        versions,
        checkout: if version.len() > 0 {
            first_value(checkouts, package + "-"@ + version)
        } else {
            None
        },
        namespace: e.namespace,
        globs: e.globs,
        leaves: e.leaves,
        sites: e.sites,
    }
}

/// The adopted roots of a workspace, in root order, each pinned to the lock.
pub open spec fn adopted_roots_view(
    us: Seq<ReexportUse>,
    cs: Seq<(Seq<char>, CrateInfo)>,
    lock: Seq<(Seq<char>, Seq<Seq<char>>)>,
    checkouts: Seq<(Seq<char>, Seq<char>)>,
) -> Seq<AdoptedView> {
    let t = adopt_fold(us, cs);
    sorted_view(t.map_values(|e: RootView| e.root)).map_values(
        |k: Seq<char>| pinned(t[root_pos(t, k)->Some_0], lock, checkouts),
    )
}

fn copy_strings(v: &Vec<String>) -> (r: Vec<String>)
    ensures
        strings_view(r@) == strings_view(v@),
{
    let mut r: Vec<String> = Vec::new();
    let mut i: usize = 0;
    while i < v.len()
        invariant
            i <= v@.len(),
            strings_view(r@) == strings_view(v@).take(i as int),
        decreases v@.len() - i,
    {
        let s = v[i].clone();
        let ghost before = strings_view(r@);
        let ghost sv = s@;
        assert(sv == strings_view(v@)[i as int]);
        r.push(s);
        assert(strings_view(r@) =~= before.push(sv));
        assert(strings_view(r@) =~= strings_view(v@).take(i + 1));
        i = i + 1;
    }
    assert(strings_view(v@).take(i as int) =~= strings_view(v@));
    r
}

fn copy_pairs(v: &Vec<(String, String)>) -> (r: Vec<(String, String)>)
    ensures
        pairs_view(r@) == pairs_view(v@),
{
    let mut r: Vec<(String, String)> = Vec::new();
    let mut i: usize = 0;
    while i < v.len()
        invariant
            i <= v@.len(),
            pairs_view(r@) == pairs_view(v@).take(i as int),
        decreases v@.len() - i,
    {
        let a = v[i].0.clone();
        let b = v[i].1.clone();
        let ghost before = pairs_view(r@);
        let ghost pv = (a@, b@);
        assert(pv == pairs_view(v@)[i as int]);
        r.push((a, b));
        assert(pairs_view(r@) =~= before.push(pv));
        assert(pairs_view(r@) =~= pairs_view(v@).take(i + 1));
        i = i + 1;
    }
    assert(pairs_view(v@).take(i as int) =~= pairs_view(v@));
    r
}

fn pairs_contain(v: &Vec<(String, String)>, a: &str, b: &str) -> (r: bool)
    ensures
        r == pairs_view(v@).contains((a@, b@)),
{
    let ghost pv = pairs_view(v@);
    let mut i: usize = 0;
    while i < v.len()
        invariant
            i <= v@.len(),
            pv == pairs_view(v@),
            forall|k: int| 0 <= k < i ==> pv[k] != (a@, b@),
        decreases v@.len() - i,
    {
        if str_eq(v[i].0.as_str(), a) && str_eq(v[i].1.as_str(), b) {
            assert(pv[i as int] == (a@, b@));
            return true;
        }
        i = i + 1;
    }
    false
}

fn add_leaf_exec(e: &mut AdoptedRoot, l: &UseLeaf, root: &str, crate_level: bool)
    ensures
        root_view(*final(e)) == add_leaf(root_view(*old(e)), l@, root@, crate_level),
{
    match l {
        UseLeaf::Glob { parent } => {
            let below = match parent {
                Some(p) => if str_eq(p.as_str(), root) {
                    String::new()
                } else {
                    p.clone()
                },
                None => String::new(),
            };
            if !strings_contain(&e.globs, below.as_str()) {
                let ghost before = strings_view(e.globs@);
                let ghost bv = below@;
                e.globs.push(below);
                assert(strings_view(e.globs@) =~= before.push(bv));
            }
        },
        UseLeaf::Named { binding, source } => {
            if !crate_level {
                let src = match source {
                    Some(s) => s.clone(),
                    None => binding.clone(),
                };
                if !pairs_contain(&e.leaves, src.as_str(), binding.as_str()) {
                    let ghost before = pairs_view(e.leaves@);
                    let ghost pv = (src@, binding@);
                    e.leaves.push((src, binding.clone()));
                    assert(pairs_view(e.leaves@) =~= before.push(pv));
                }
            }
        },
    }
}

fn add_leaves_exec(e: &mut AdoptedRoot, leaves: &Vec<UseLeaf>, root: &str, crate_level: bool)
    ensures
        root_view(*final(e)) == add_leaves(root_view(*old(e)), leaf_views(leaves@), root@, crate_level),
{
    let ghost start = root_view(*e);
    let ghost lv = leaf_views(leaves@);
    let mut i: usize = 0;
    while i < leaves.len()
        invariant
            i <= leaves@.len(),
            lv == leaf_views(leaves@),
            root_view(*e) == add_leaves(start, lv.take(i as int), root@, crate_level),
        decreases leaves@.len() - i,
    {
        add_leaf_exec(e, &leaves[i], root, crate_level);
        assert(lv.take(i + 1).drop_last() =~= lv.take(i as int));
        assert(lv.take(i + 1).last() == leaves@[i as int]@);
        i = i + 1;
    }
    assert(lv.take(i as int) =~= lv);
}

fn first_rename_exec(rs: &Vec<(String, String)>, root: &str, norm: &str) -> (r: Option<String>)
    ensures
        opt_view(r) == first_rename(pairs_view(rs@), root@, norm@),
{
    let ghost pv = pairs_view(rs@);
    let mut i: usize = 0;
    assert(pv.skip(0) =~= pv);
    while i < rs.len()
        invariant
            i <= rs@.len(),
            pv == pairs_view(rs@),
            first_rename(pv, root@, norm@) == first_rename(pv.skip(i as int), root@, norm@),
        decreases rs@.len() - i,
    {
        assert(pv.skip(i as int).drop_first() =~= pv.skip(i + 1));
        assert(pv.skip(i as int)[0] == pv[i as int]);
        let b = underscored_exec(rs[i].0.as_str());
        if str_eq(rs[i].0.as_str(), root) || str_eq(b.as_str(), norm) {
            return Some(rs[i].1.clone());
        }
        i = i + 1;
    }
    assert(pv.skip(i as int) =~= Seq::<(Seq<char>, Seq<char>)>::empty());
    None
}

fn is_lang_or_std(r: &str) -> (b: bool)
    ensures
        b == (is_lang_root(r@) || is_std_root(r@)),
{
    str_eq(r, "crate") || str_eq(r, "self") || str_eq(r, "super") || str_eq(r, "std") || str_eq(r, "core") || str_eq(
        r,
        "alloc",
    )
}

fn workspace_package_exec(crates: &IndexMap<String, CrateInfo>, p: &str) -> (r: bool)
    ensures
        r == workspace_package(crate_entries(*crates), p@),
{
    let u = underscored_exec(p);
    crate_get(crates, p).is_some() || crate_get(crates, u.as_str()).is_some()
}

fn unrooted_has_colons(path: &str) -> (r: bool)
    ensures
        r == contains_seq(unrooted(path@), colons()),
{
    let cs = chars_of(path);
    let t = trim_exec(&cs);
    let ts = string_of(&t);
    let colon2 = vec![':', ':'];
    assert(colon2@ =~= colons());
    if str_starts_with(ts.as_str(), "::") {
        assert("::"@ =~= colons()) by {
            reveal_strlit("::");
        }
        let rest = crate::lexical::slice_vec(&t, 2, t.len());
        assert(rest@ =~= t@.skip(2));
        str_contains(string_of(&rest).as_str(), "::")
    } else {
        assert("::"@ =~= colons()) by {
            reveal_strlit("::");
        }
        str_contains(ts.as_str(), "::")
    }
}

fn adopt_parse_exec(u: &ReexportUse, crates: &IndexMap<String, CrateInfo>, vocab: &ResolveVocab) -> (r: Option<
    (String, String, bool, Vec<UseLeaf>, String),
>)
    requires
        vocab@ == vocab_of(crate_entries(*crates)),
    ensures
        match r {
            Some((n, p, cl, ls, root)) => adopt_parse(*u, crate_entries(*crates)) == Some(
                (n@, p@, cl, leaf_views(ls@), root@),
            ),
            None => adopt_parse(*u, crate_entries(*crates)) is None,
        },
{
    let ghost cs = crate_entries(*crates);
    proof {
        reveal_strlit("");
    }
    if !u.reexport || u.doc_hidden {
        return None;
    }
    let file = match &u.file {
        Some(f) => f.clone(),
        None => String::new(),
    };
    if in_examples_exec(file.as_str()) {
        return None;
    }
    let using = match &u.crate_name {
        Some(c) => c.clone(),
        None => String::new(),
    };
    if chars_of(using.as_str()).len() == 0 {
        return None;
    }
    match crate_get(crates, using.as_str()) {
        Some(info) => {
            if is_scaffolding(using.as_str(), info) {
                return None;
            }
        },
        None => {},
    }
    let path = match &u.path {
        Some(p) => p,
        None => {
            return None;
        },
    };
    if !use_path_is_defined(path.as_str()) {
        return None;
    }
    let parsed = parse_use_leaves(path.as_str());
    let root = parsed.root;
    let rc = chars_of(root.as_str());
    if rc.len() == 0 {
        return None;
    }
    if is_lang_or_std(root.as_str()) {
        return None;
    }
    if char_is_uppercase(rc[0]) {
        return None;
    }
    if vocab.resolve_root(using.as_str(), root.as_str()).is_some() {
        return None;
    }
    let norm = underscored_exec(root.as_str());
    let package = match crate_get(crates, using.as_str()) {
        Some(info) => match first_rename_exec(&info.renames, root.as_str(), norm.as_str()) {
            Some(p) => p,
            None => root.clone(),
        },
        None => root.clone(),
    };
    if workspace_package_exec(crates, package.as_str()) {
        return None;
    }
    let crate_level = !unrooted_has_colons(path.as_str());
    proof {
        assert(using@ == text_or_empty(u.crate_name));
        assert(file@ == text_or_empty(u.file));
        assert(!scaffolding_crate(cs, using@));
        assert(rc@ == root@);
        assert(parse_view(path@).0 == root@);
        assert(package@ == rename_package(cs, using@, root@));
        assert(leaf_views(parsed.leaves@) == parse_view(path@).1);
        assert(!upper_char(root@[0]));
        assert(u.path == Some(*path));
        assert(use_path_defined(path@));
        assert(!is_lang_root(root@) && !is_std_root(root@));
        assert(resolve_root_view(vocab_of(cs), using@, root@) is None);
        assert(!workspace_package(cs, package@));
        assert(!in_examples(text_or_empty(u.file)));
        assert(u.reexport && !u.doc_hidden);
        assert(text_or_empty(u.crate_name).len() > 0);
        assert(root@.len() > 0);
        assert(norm@ == underscored(root@));
        assert(crate_level == !contains_seq(unrooted(path@), colons()));
        assert(adopt_parse(*u, cs) == Some((norm@, package@, crate_level, leaf_views(parsed.leaves@), root@)));
    }
    Some((norm, package, crate_level, parsed.leaves, root))
}

proof fn lemma_add_leaves_keeps(e: RootView, ls: Seq<LeafView>, root: Seq<char>, cl: bool)
    ensures
        add_leaves(e, ls, root, cl).root == e.root,
        add_leaves(e, ls, root, cl).package == e.package,
        add_leaves(e, ls, root, cl).sites == e.sites,
        add_leaves(e, ls, root, cl).namespace == e.namespace,
    decreases ls.len(),
{
    if ls.len() > 0 {
        lemma_add_leaves_keeps(e, ls.drop_last(), root, cl);
    }
}

proof fn lemma_root_pos(t: Seq<RootView>, k: Seq<char>)
    ensures
        root_pos(t, k) matches Some(i) ==> 0 <= i < t.len() && t[i].root == k,
        (exists|i: int| 0 <= i < t.len() && #[trigger] t[i].root == k) ==> root_pos(t, k) is Some,
    decreases t.len(),
{
    if t.len() > 0 {
        lemma_root_pos(t.drop_last(), k);
        if exists|i: int| 0 <= i < t.len() && #[trigger] t[i].root == k {
            let i = choose|i: int| 0 <= i < t.len() && #[trigger] t[i].root == k;
            if i < t.len() - 1 {
                assert(t.drop_last()[i].root == k);
            }
        }
    }
}

proof fn lemma_parse_not_std(u: ReexportUse, cs: Seq<(Seq<char>, CrateInfo)>)
    ensures
        adopt_parse(u, cs) matches Some((norm, _, _, _, _)) ==> !is_std_root(norm),
{
    if let Some((norm, _, _, _, root)) = adopt_parse(u, cs) {
        reveal_strlit("std");
        reveal_strlit("core");
        reveal_strlit("alloc");
        assert(norm == underscored(root));
        if is_std_root(norm) {
            assert(norm.len() == root.len());
            assert forall|i: int| 0 <= i < root.len() implies root[i] == norm[i] by {
                assert(norm[i] == (if root[i] == '-' { '_' } else { root[i] }));
            }
            assert(root =~= norm);
            assert(false);
        }
    }
}

/// The roots of `adopt_fold` are distinct, and none is `std`, `core` or `alloc`.
proof fn lemma_fold_roots(us: Seq<ReexportUse>, cs: Seq<(Seq<char>, CrateInfo)>)
    ensures
        forall|i: int, j: int|
            0 <= i < j < adopt_fold(us, cs).len() ==> #[trigger] adopt_fold(us, cs)[i].root
                != #[trigger] adopt_fold(us, cs)[j].root,
        forall|i: int| 0 <= i < adopt_fold(us, cs).len() ==> !is_std_root(#[trigger] adopt_fold(us, cs)[i].root),
    decreases us.len(),
{
    if us.len() > 0 {
        let t = adopt_fold(us.drop_last(), cs);
        lemma_fold_roots(us.drop_last(), cs);
        lemma_parse_not_std(us.last(), cs);
        let u = us.last();
        match adopt_parse(u, cs) {
            None => {},
            Some((norm, package, cl, ls, root)) => {
                lemma_root_pos(t, norm);
                match root_pos(t, norm) {
                    Some(i) => {
                        lemma_add_leaves_keeps(
                            RootView { sites: t[i].sites + 1, namespace: t[i].namespace || cl, ..t[i] },
                            ls,
                            root,
                            cl,
                        );
                    },
                    None => {
                        lemma_add_leaves_keeps(
                            RootView { sites: 1, namespace: cl, ..fresh_root(norm, package) },
                            ls,
                            root,
                            cl,
                        );
                    },
                }
            },
        }
    }
}

proof fn lemma_root_pos_prefix(t: Seq<RootView>, n: int, k: Seq<char>)
    requires
        0 <= n <= t.len(),
        root_pos(t.take(n), k) is Some,
    ensures
        root_pos(t, k) == root_pos(t.take(n), k),
    decreases t.len(),
{
    if n == t.len() {
        assert(t.take(n) =~= t);
    } else {
        assert(t.drop_last().take(n) =~= t.take(n));
        lemma_root_pos_prefix(t.drop_last(), n, k);
    }
}

fn root_index(t: &Vec<AdoptedRoot>, k: &str) -> (r: Option<usize>)
    ensures
        r matches Some(i) ==> i < t@.len() && root_pos(roots_view(t@), k@) == Some(i as int),
        r is None ==> root_pos(roots_view(t@), k@) is None,
{
    let ghost tv = roots_view(t@);
    let mut i: usize = 0;
    while i < t.len()
        invariant
            i <= t@.len(),
            tv == roots_view(t@),
            root_pos(tv.take(i as int), k@) is None,
        decreases t@.len() - i,
    {
        assert(tv.take(i + 1).drop_last() =~= tv.take(i as int));
        if str_eq(t[i].root.as_str(), k) {
            assert(tv.take(i + 1).last().root == k@);
            proof {
                lemma_root_pos_prefix(tv, i + 1, k@);
            }
            return Some(i);
        }
        i = i + 1;
    }
    assert(tv.take(i as int) =~= tv);
    None
}

fn adopt_table(uses: &Vec<ReexportUse>, crates: &IndexMap<String, CrateInfo>) -> (r: Vec<AdoptedRoot>)
    ensures
        roots_view(r@) == adopt_fold(uses@, crate_entries(*crates)),
{
    let ghost cs = crate_entries(*crates);
    let vocab = ResolveVocab::from_crates(crates);
    let mut t: Vec<AdoptedRoot> = Vec::new();
    let mut i: usize = 0;
    assert(roots_view(t@) =~= adopt_fold(uses@.take(0), cs));
    while i < uses.len()
        invariant
            i <= uses@.len(),
            cs == crate_entries(*crates),
            vocab@ == vocab_of(cs),
            roots_view(t@) == adopt_fold(uses@.take(i as int), cs),
            forall|k: int| 0 <= k < t@.len() ==> (#[trigger] t@[k]).sites <= i,
        decreases uses@.len() - i,
    {
        assert(uses@.take(i + 1).drop_last() =~= uses@.take(i as int));
        assert(uses@.take(i + 1).last() == uses@[i as int]);
        let ghost before = roots_view(t@);
        match adopt_parse_exec(&uses[i], crates, &vocab) {
            None => {},
            Some((norm, package, cl, leaves, root)) => {
                match root_index(&t, norm.as_str()) {
                    Some(j) => {
                        let ghost raw = t@;
                        let mut e = t.remove(j);
                        assert(e == raw[j as int]);
                        e.sites = e.sites + 1;
                        e.namespace = e.namespace || cl;
                        let ghost touched = root_view(e);
                        add_leaves_exec(&mut e, &leaves, root.as_str(), cl);
                        proof {
                            lemma_add_leaves_keeps(touched, leaf_views(leaves@), root@, cl);
                        }
                        let ghost ev = e;
                        t.insert(j, e);
                        assert(t@ =~= raw.update(j as int, ev));
                        assert(roots_view(t@) =~= before.update(j as int, root_view(ev)));
                    },
                    None => {
                        let mut e = AdoptedRoot {
                            root: norm,
                            package,
                            version: String::new(),
                            versions: Vec::new(),
                            checkout: None,
                            namespace: cl,
                            globs: Vec::new(),
                            leaves: Vec::new(),
                            sites: 1,
                        };
                        let ghost touched = root_view(e);
                        assert(strings_view(e.globs@) =~= Seq::<Seq<char>>::empty());
                        assert(pairs_view(e.leaves@) =~= Seq::<(Seq<char>, Seq<char>)>::empty());
                        assert(touched == RootView { sites: 1, namespace: cl, ..fresh_root(e.root@, e.package@) });
                        add_leaves_exec(&mut e, &leaves, root.as_str(), cl);
                        proof {
                            lemma_add_leaves_keeps(touched, leaf_views(leaves@), root@, cl);
                        }
                        let ghost ev = e;
                        t.push(e);
                        assert(roots_view(t@) =~= before.push(root_view(ev)));
                    },
                }
            },
        }
        i = i + 1;
    }
    assert(uses@.take(i as int) =~= uses@);
    t
}

/// `str::replace('_', "-")`.
fn hyphenated_exec(s: &str) -> (r: String)
    ensures
        r@ == hyphenated(s@),
{
    let cs = chars_of(s);
    let mut r = String::new();
    let mut i: usize = 0;
    while i < cs.len()
        invariant
            i <= cs@.len(),
            cs@ == s@,
            r@ == hyphenated(s@).take(i as int),
        decreases cs@.len() - i,
    {
        let c = cs[i];
        if c == '_' {
            r.push('-');
        } else {
            r.push(c);
        }
        assert(r@ =~= hyphenated(s@).take(i + 1));
        i = i + 1;
    }
    assert(hyphenated(s@).take(i as int) =~= hyphenated(s@));
    r
}

fn lock_lookup(lock: &Vec<(String, Vec<String>)>, k: &str) -> (r: Option<usize>)
    ensures
        r matches Some(i) ==> i < lock@.len() && first_value(lock_view(lock@), k@) == Some(strings_view(lock@[i as int].1@)),
        r is None ==> first_value(lock_view(lock@), k@) is None,
{
    let ghost lv = lock_view(lock@);
    let mut i: usize = 0;
    while i < lock.len()
        invariant
            i <= lock@.len(),
            lv == lock_view(lock@),
            first_value(lv.take(i as int), k@) is None,
        decreases lock@.len() - i,
    {
        proof {
            lemma_first_value_step(lv, i as int, k@);
        }
        if str_eq(lock[i].0.as_str(), k) {
            proof {
                lemma_first_value_prefix(lv, i + 1, k@);
            }
            return Some(i);
        }
        i = i + 1;
    }
    assert(lv.take(i as int) =~= lv);
    None
}

fn pin_exec(e: &AdoptedRoot, lock: &Vec<(String, Vec<String>)>, checkouts: &Vec<(String, String)>) -> (r: AdoptedRoot)
    ensures
        adopted_view(r) == pinned(root_view(*e), lock_view(lock@), pairs_view(checkouts@)),
{
    let ghost want = pinned(root_view(*e), lock_view(lock@), pairs_view(checkouts@));
    let hy = hyphenated_exec(e.package.as_str());
    let mut package = e.package.clone();
    let mut versions: Vec<String> = Vec::new();
    assert(strings_view(versions@) =~= Seq::<Seq<char>>::empty());
    match lock_lookup(lock, e.package.as_str()) {
        Some(i) => {
            versions = copy_strings(&lock[i].1);
        },
        None => match lock_lookup(lock, hy.as_str()) {
            Some(i) => {
                package = hy;
                versions = copy_strings(&lock[i].1);
            },
            None => {},
        },
    }
    assert(package@ == want.package);
    assert(strings_view(versions@) == want.versions);
    let version = if versions.len() > 0 {
        versions[0].clone()
    } else {
        String::new()
    };
    assert(version@ == want.version);
    let checkout = if chars_of(version.as_str()).len() > 0 {
        let mut key = package.clone();
        push_str(&mut key, "-");
        push_str(&mut key, version.as_str());
        assert(key@ == package@ + "-"@ + version@);
        match pair_lookup(checkouts, key.as_str()) {
            Some(i) => Some(checkouts[i].1.clone()),
            None => None,
        }
    } else {
        None
    };
    assert(opt_view(checkout) == want.checkout);
    let r = AdoptedRoot {
        root: e.root.clone(),
        package,
        version,
        versions,
        checkout,
        namespace: e.namespace,
        globs: copy_strings(&e.globs),
        leaves: copy_pairs(&e.leaves),
        sites: e.sites,
    };
    r
}

/// Resolves the workspace's adopted foreign roots from its re-export uses:
/// each adopting use (see `adopt_parse`) counts a site on its normalized
/// root, the first such use fixing the package; crate-level uses mark the
/// root a namespace adoption, globs add the module path below the root and
/// named leaves below the crate add their (source, binding) pairs. The roots
/// come in root order, each pinned to the lock (its package or hyphenated
/// package, that entry's versions, the first as the version) with the
/// checkout listed for `package-version`.
pub fn resolve_adopted_roots(
    facts: &AdoptFacts,
    crates: &IndexMap<String, CrateInfo>,
    lock: &Vec<(String, Vec<String>)>,
    checkouts: &Vec<(String, String)>,
) -> (r: Vec<AdoptedRoot>)
    ensures
        adopted_views(r@) == adopted_roots_view(facts.uses@, crate_entries(*crates), lock_view(lock@), pairs_view(checkouts@)),
        forall|i: int, j: int| 0 <= i < j < r@.len() ==> seq_lt(#[trigger] r@[i].root@, #[trigger] r@[j].root@),
        forall|i: int| 0 <= i < r@.len() ==> !is_std_root(#[trigger] r@[i].root@),
{
    let t = adopt_table(&facts.uses, crates);
    let ghost tv = roots_view(t@);
    let mut keys: Vec<String> = Vec::new();
    let mut i: usize = 0;
    while i < t.len()
        invariant
            i <= t@.len(),
            tv == roots_view(t@),
            strings_view(keys@) == tv.map_values(|e: RootView| e.root).take(i as int),
        decreases t@.len() - i,
    {
        let ghost before = strings_view(keys@);
        let k = t[i].root.clone();
        let ghost kv = k@;
        keys.push(k);
        assert(strings_view(keys@) =~= before.push(kv));
        assert(tv.map_values(|e: RootView| e.root).take(i + 1) =~= tv.map_values(|e: RootView| e.root).take(
            i as int,
        ).push(kv));
        i = i + 1;
    }
    let ghost ks = tv.map_values(|e: RootView| e.root);
    assert(ks.take(i as int) =~= ks);
    let sorted = sort_strings(&keys);
    let ghost sv = strings_view(sorted@);
    let ghost want = adopted_roots_view(facts.uses@, crate_entries(*crates), lock_view(lock@), pairs_view(checkouts@));
    assert(strings_view(keys@) == ks);
    proof {
        assert forall|x: Seq<char>| sv.contains(x) implies ks.contains(x) by {
            sv.to_multiset_ensures();
            ks.to_multiset_ensures();
            assert(sv.to_multiset().count(x) > 0);
        }
    }
    let mut out: Vec<AdoptedRoot> = Vec::new();
    let mut j: usize = 0;
    while j < sorted.len()
        invariant
            j <= sorted@.len(),
            sv == strings_view(sorted@),
            sv == sorted_view(ks),
            tv == roots_view(t@),
            ks == tv.map_values(|e: RootView| e.root),
            tv == adopt_fold(facts.uses@, crate_entries(*crates)),
            forall|x: Seq<char>| sv.contains(x) ==> ks.contains(x),
            want == adopted_roots_view(facts.uses@, crate_entries(*crates), lock_view(lock@), pairs_view(checkouts@)),
            want.len() == sv.len(),
            adopted_views(out@) == want.take(j as int),
            out@.len() == j,
            forall|m: int| 0 <= m < j ==> (#[trigger] out@[m]).root@ == sv[m],
        decreases sorted@.len() - j,
    {
        let k = &sorted[j];
        assert(sv.contains(sv[j as int]));
        assert(ks.contains(k@));
        proof {
            let w = choose|w: int| 0 <= w < ks.len() && ks[w] == k@;
            assert(tv[w].root == k@);
            lemma_root_pos(tv, k@);
        }
        let idx = root_index(&t, k.as_str());
        let p = idx.unwrap();
        let pinned_root = pin_exec(&t[p], lock, checkouts);
        assert(pinned_root.root@ == sv[j as int]);
        let ghost before = adopted_views(out@);
        let ghost pv = adopted_view(pinned_root);
        out.push(pinned_root);
        assert(adopted_views(out@) =~= before.push(pv));
        assert(want[j as int] == pinned(tv[p as int], lock_view(lock@), pairs_view(checkouts@)));
        assert(want.take(j + 1) =~= want.take(j as int).push(want[j as int]));
        j = j + 1;
    }
    assert(want.take(j as int) =~= want);
    proof {
        lemma_fold_roots(facts.uses@, crate_entries(*crates));
        assert(ks.no_duplicates());
        ks.lemma_multiset_has_no_duplicates();
        sv.lemma_multiset_has_no_duplicates_conv();
        assert forall|a: int, b: int| 0 <= a < b < out@.len() implies seq_lt(
            #[trigger] out@[a].root@,
            #[trigger] out@[b].root@,
        ) by {
            lemma_seq_lt_total_order(sv[a], sv[b], sv[b]);
        }
        assert forall|a: int| 0 <= a < out@.len() implies !is_std_root(#[trigger] out@[a].root@) by {
            assert(sv.contains(sv[a]));
            let w = choose|w: int| 0 <= w < ks.len() && ks[w] == sv[a];
            assert(tv[w].root == sv[a]);
        }
    }
    out
}

} // verus!
