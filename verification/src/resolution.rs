//! Import surfaces and origin resolution: per-file import bindings read from
//! use-tree strings, the crate-name vocabulary, the facade re-export index,
//! and the verdicts that resolve a usage site to its origin and decide
//! whether it credits a pattern.

use vstd::prelude::*;
use indexmap::IndexMap;
use crate::assoc::{
    first_value, has_key, lemma_first_value_prefix, lemma_first_value_push, lemma_first_value_step,
};
use crate::crate_map::{crate_at, crate_count, crate_entries};
use crate::fingerprint::CrateInfo;
use crate::lexical::{
    chars_eq, rsplit_once, rsplit_once_exec, slice_vec, trim, trim_exec, underscored, underscored_exec,
};
use crate::text::{
    chars_contain, chars_of, contains_seq, find_from_exec, lemma_find_from_sound, occurs_at, split_once,
    str_eq,
};
use crate::use_tree::{
    LeafView, UseLeaf, as_sep, colons, leaf_views, parse_use_leaves, parse_view, use_path_defined,
};

verus! {

/// The view of an optional owned string.
pub open spec fn opt_view(o: Option<String>) -> Option<Seq<char>> {
    match o {
        Some(s) => Some(s@),
        None => None,
    }
}

/// A copy of an optional string.
pub fn clone_opt(o: &Option<String>) -> (r: Option<String>)
    ensures
        r == *o,
        opt_view(r) == opt_view(*o),
{
    match o {
        Some(s) => Some(s.clone()),
        None => None,
    }
}

/// One per-file import binding: the path root it resolves through and the
/// imported item's source name when the binding is a rename.
#[derive(Debug, Clone)]
pub struct ImportBinding {
    pub root: String,
    pub source: Option<String>,
}

impl ImportBinding {
    pub open spec fn view_pair(self) -> (Seq<char>, Option<Seq<char>>) {
        (self.root@, opt_view(self.source))
    }
}

/// One bound name of one file.
#[derive(Debug, Clone)]
pub struct ImportEntry {
    pub file: String,
    pub name: String,
    pub binding: ImportBinding,
}

/// The per-file import surface: (file, name) keys with their bindings, read
/// first-wins.
#[derive(Debug, Clone)]
pub struct ImportMaps {
    pub entries: Vec<ImportEntry>,
}

impl View for ImportMaps {
    type V = Seq<((Seq<char>, Seq<char>), (Seq<char>, Option<Seq<char>>))>;

    open spec fn view(&self) -> Seq<((Seq<char>, Seq<char>), (Seq<char>, Option<Seq<char>>))> {
        self.entries@.map_values(|e: ImportEntry| ((e.file@, e.name@), e.binding.view_pair()))
    }
}

/// The import surface after reading the leaves of one use path of `file`
/// rooted at `root`: each named leaf binds its name unless the file already
/// binds it; globs bind nothing.
pub open spec fn add_leaves(
    es: Seq<((Seq<char>, Seq<char>), (Seq<char>, Option<Seq<char>>))>,
    file: Seq<char>,
    root: Seq<char>,
    leaves: Seq<LeafView>,
) -> Seq<((Seq<char>, Seq<char>), (Seq<char>, Option<Seq<char>>))>
    decreases leaves.len(),
{
    if leaves.len() == 0 {
        es
    } else {
        let prev = add_leaves(es, file, root, leaves.drop_last());
        match leaves.last() {
            LeafView::Named { binding, source } => if has_key(prev, (file, binding)) {
                prev
            } else {
                prev.push(((file, binding), (root, source)))
            },
            LeafView::Glob { .. } => prev,
        }
    }
}

/// The import surface of a list of (file, use path) pairs, in order; paths
/// without a root contribute nothing.
pub open spec fn import_entries(uses: Seq<(Seq<char>, Seq<char>)>) -> Seq<
    ((Seq<char>, Seq<char>), (Seq<char>, Option<Seq<char>>)),
>
    decreases uses.len(),
{
    if uses.len() == 0 {
        Seq::empty()
    } else {
        let prev = import_entries(uses.drop_last());
        let parsed = parse_view(uses.last().1);
        if parsed.0.len() == 0 {
            prev
        } else {
            add_leaves(prev, uses.last().0, parsed.0, parsed.1)
        }
    }
}

/// The views of a list of string pairs.
pub open spec fn pairs_view(s: Seq<(String, String)>) -> Seq<(Seq<char>, Seq<char>)> {
    s.map_values(|p: (String, String)| (p.0@, p.1@))
}

impl ImportMaps {
    /// The binding of `name` in `file`, if the file binds it.
    pub fn get(&self, file: &str, name: &str) -> (r: Option<&ImportBinding>)
        ensures
            r matches Some(b) ==> first_value(self@, (file@, name@)) == Some(b.view_pair()),
            r is None ==> first_value(self@, (file@, name@)) is None,
    {
        let mut i: usize = 0;
        while i < self.entries.len()
            invariant
                i <= self.entries@.len(),
                first_value(self@.take(i as int), (file@, name@)) is None,
            decreases self.entries@.len() - i,
        {
            proof {
                lemma_first_value_step(self@, i as int, (file@, name@));
            }
            let e = &self.entries[i];
            if str_eq(e.file.as_str(), file) && str_eq(e.name.as_str(), name) {
                proof {
                    lemma_first_value_prefix(self@, i + 1, (file@, name@));
                }
                return Some(&e.binding);
            }
            i = i + 1;
        }
        proof {
            assert(self@.take(i as int) =~= self@);
        }
        None
    }
}

/// Builds the per-file import maps from (file, use path) pairs. Globs are
/// skipped; the first binding of a name in a file wins.
pub fn build_import_bindings(uses: &[(String, String)]) -> (r: ImportMaps)
    requires
        forall|i: int| 0 <= i < uses@.len() ==> use_path_defined(#[trigger] uses@[i].1@),
    ensures
        r@ == import_entries(pairs_view(uses@)),
{
    let mut out = ImportMaps { entries: Vec::new() };
    let ghost us = pairs_view(uses@);
    assert(out@ =~= import_entries(us.take(0)));
    let mut i: usize = 0;
    while i < uses.len()
        invariant
            i <= uses@.len(),
            us == pairs_view(uses@),
            forall|k: int| 0 <= k < uses@.len() ==> use_path_defined(#[trigger] uses@[k].1@),
            out@ == import_entries(us.take(i as int)),
        decreases uses@.len() - i,
    {
        let file = &uses[i].0;
        assert(use_path_defined(uses@[i as int].1@));
        let parsed = parse_use_leaves(uses[i].1.as_str());
        assert(us.take(i + 1).drop_last() =~= us.take(i as int));
        assert(us.take(i + 1).last() == (file@, uses@[i as int].1@));
        if !parsed.root.as_str().is_empty() {
            let ghost start = out@;
            let ghost lv = leaf_views(parsed.leaves@);
            assert(lv.take(0) =~= Seq::<LeafView>::empty());
            let mut j: usize = 0;
            while j < parsed.leaves.len()
                invariant
                    j <= parsed.leaves@.len(),
                    lv == leaf_views(parsed.leaves@),
                    out@ == add_leaves(start, file@, parsed.root@, lv.take(j as int)),
                decreases parsed.leaves@.len() - j,
            {
                assert(lv.take(j + 1).drop_last() =~= lv.take(j as int));
                assert(lv.take(j + 1).last() == parsed.leaves@[j as int]@);
                match &parsed.leaves[j] {
                    UseLeaf::Named { binding, source } => {
                        if out.get(file.as_str(), binding.as_str()).is_none() {
                            let ghost before = out@;
                            let b = ImportBinding { root: parsed.root.clone(), source: clone_opt(source) };
                            out.entries.push(ImportEntry { file: file.clone(), name: binding.clone(), binding: b });
                            assert(out@ =~= before.push(((file@, binding@), (parsed.root@, opt_view(*source)))));
                        }
                    },
                    UseLeaf::Glob { .. } => {},
                }
                j = j + 1;
            }
            assert(lv.take(j as int) =~= lv);
        }
        i = i + 1;
    }
    assert(us.take(i as int) =~= us);
    out
}

/// A collection of named sets of strings: `entries` pairs a key with some of
/// its members; a key's set is the union over all of its entries.
#[derive(Debug, Clone)]
pub struct NameSets {
    pub entries: Vec<(String, Vec<String>)>,
}

/// The views of a list of strings.
pub open spec fn strings_view(v: Seq<String>) -> Seq<Seq<char>> {
    v.map_values(|s: String| s@)
}

/// Whether `x` is in the set named `k`.
pub open spec fn member_of(s: Seq<(Seq<char>, Seq<Seq<char>>)>, k: Seq<char>, x: Seq<char>) -> bool {
    exists|i: int| 0 <= i < s.len() && (#[trigger] s[i]).0 == k && s[i].1.contains(x)
}

impl View for NameSets {
    type V = Seq<(Seq<char>, Seq<Seq<char>>)>;

    open spec fn view(&self) -> Seq<(Seq<char>, Seq<Seq<char>>)> {
        self.entries@.map_values(|e: (String, Vec<String>)| (e.0@, strings_view(e.1@)))
    }
}

/// Whether `s` holds the string `x`.
pub fn strings_contain(s: &Vec<String>, x: &str) -> (r: bool)
    ensures
        r == strings_view(s@).contains(x@),
{
    let mut i: usize = 0;
    while i < s.len()
        invariant
            i <= s@.len(),
            forall|k: int| 0 <= k < i ==> s@[k]@ != x@,
        decreases s@.len() - i,
    {
        if str_eq(s[i].as_str(), x) {
            assert(strings_view(s@)[i as int] == x@);
            return true;
        }
        i = i + 1;
    }
    assert forall|k: int| 0 <= k < strings_view(s@).len() implies strings_view(s@)[k] != x@ by {
        assert(s@[k]@ != x@);
    }
    false
}

impl NameSets {
    /// The empty collection.
    pub fn new() -> (r: Self)
        ensures
            r@ == Seq::<(Seq<char>, Seq<Seq<char>>)>::empty(),
    {
        let r = NameSets { entries: Vec::new() };
        assert(r@ =~= Seq::<(Seq<char>, Seq<Seq<char>>)>::empty());
        r
    }

    /// Whether the set named `key` holds `member`.
    pub fn contains(&self, key: &str, member: &str) -> (r: bool)
        ensures
            r == member_of(self@, key@, member@),
    {
        let mut i: usize = 0;
        while i < self.entries.len()
            invariant
                i <= self.entries@.len(),
                forall|k: int| 0 <= k < i ==> !((#[trigger] self@[k]).0 == key@ && self@[k].1.contains(member@)),
            decreases self.entries@.len() - i,
        {
            if str_eq(self.entries[i].0.as_str(), key) && strings_contain(&self.entries[i].1, member) {
                assert(self@[i as int].0 == key@ && self@[i as int].1.contains(member@));
                return true;
            }
            i = i + 1;
        }
        false
    }

    /// Adds `member` to the set named `key`.
    pub fn insert(&mut self, key: &str, member: &str)
        ensures
            forall|k: Seq<char>, x: Seq<char>|
                member_of(final(self)@, k, x) == (member_of(old(self)@, k, x) || (k == key@ && x
                    == member@)),
    {
        let ghost before = self@;
        let mut one: Vec<String> = Vec::new();
        one.push(member.to_owned());
        assert(strings_view(one@) =~= seq![member@]);
        self.entries.push((key.to_owned(), one));
        let ghost y = (key@, seq![member@]);
        assert(self@ =~= before.push(y));
        assert forall|k: Seq<char>, x: Seq<char>|
            member_of(self@, k, x) == (member_of(before, k, x) || (k == key@ && x == member@)) by {
            if member_of(before, k, x) {
                let i = choose|i: int| 0 <= i < before.len() && (#[trigger] before[i]).0 == k
                    && before[i].1.contains(x);
                assert(self@[i] == before[i]);
            }
            if k == key@ && x == member@ {
                assert(self@[before.len() as int] == y);
                assert(y.1[0] == x);
            }
            if member_of(self@, k, x) {
                let i = choose|i: int| 0 <= i < self@.len() && (#[trigger] self@[i]).0 == k
                    && self@[i].1.contains(x);
                if i < before.len() {
                    assert(before[i] == self@[i]);
                } else {
                    let j = choose|j: int| 0 <= j < y.1.len() && y.1[j] == x;
                    assert(y.1[j] == member@);
                }
            }
        }
    }
}

/// The vocabulary's content: the global bindings (normalized binding, package)
/// and the per-crate dependency renames ((using crate, normalized binding),
/// package), each read first-wins.
pub ghost struct VocabView {
    pub members: Seq<(Seq<char>, Seq<char>)>,
    pub renames: Seq<((Seq<char>, Seq<char>), Seq<char>)>,
}

/// The bindings -> crate vocabulary: every name a source root can use for an
/// in-repo crate, reconciled to the canonical package name. Global bindings
/// are package names plus `[lib]` rename names; a per-consuming-crate overlay
/// holds dependency renames.
#[derive(Debug, Clone)]
pub struct ResolveVocab {
    members: Vec<(String, String)>,
    renames_by_crate: Vec<((String, String), String)>,
}

/// The views of a list of keyed triples.
pub open spec fn triples_view(s: Seq<((String, String), String)>) -> Seq<
    ((Seq<char>, Seq<char>), Seq<char>),
> {
    s.map_values(|t: ((String, String), String)| ((t.0.0@, t.0.1@), t.1@))
}

impl View for ResolveVocab {
    type V = VocabView;

    closed spec fn view(&self) -> VocabView {
        VocabView { members: pairs_view(self.members@), renames: triples_view(self.renames_by_crate@) }
    }
}

/// Binds `binding` (hyphens normalized) to `canonical` unless already bound.
pub open spec fn bind_member(
    ms: Seq<(Seq<char>, Seq<char>)>,
    binding: Seq<char>,
    canonical: Seq<char>,
) -> Seq<(Seq<char>, Seq<char>)> {
    if has_key(ms, underscored(binding)) {
        ms
    } else {
        ms.push((underscored(binding), canonical))
    }
}

/// The global bindings of a list of crates, in order: each package name,
/// then its `[lib]` name when it has one.
pub open spec fn members_of(cs: Seq<(Seq<char>, CrateInfo)>) -> Seq<(Seq<char>, Seq<char>)>
    decreases cs.len(),
{
    if cs.len() == 0 {
        Seq::empty()
    } else {
        let prev = members_of(cs.drop_last());
        let pkg = cs.last().0;
        let with_pkg = bind_member(prev, pkg, pkg);
        match cs.last().1.lib_name {
            Some(lib) => bind_member(with_pkg, lib@, pkg),
            None => with_pkg,
        }
    }
}

/// The overlay after reading the dependency renames `rs` of crate `pkg`.
pub open spec fn add_renames(
    acc: Seq<((Seq<char>, Seq<char>), Seq<char>)>,
    pkg: Seq<char>,
    rs: Seq<(String, String)>,
) -> Seq<((Seq<char>, Seq<char>), Seq<char>)>
    decreases rs.len(),
{
    if rs.len() == 0 {
        acc
    } else {
        let prev = add_renames(acc, pkg, rs.drop_last());
        let key = (pkg, underscored(rs.last().0@));
        if has_key(prev, key) {
            prev
        } else {
            prev.push((key, rs.last().1@))
        }
    }
}

/// The per-crate rename overlay of a list of crates.
pub open spec fn renames_of(cs: Seq<(Seq<char>, CrateInfo)>) -> Seq<
    ((Seq<char>, Seq<char>), Seq<char>),
>
    decreases cs.len(),
{
    if cs.len() == 0 {
        Seq::empty()
    } else {
        add_renames(renames_of(cs.drop_last()), cs.last().0, cs.last().1.renames@)
    }
}

/// The vocabulary of a list of crates.
pub open spec fn vocab_of(cs: Seq<(Seq<char>, CrateInfo)>) -> VocabView {
    VocabView { members: members_of(cs), renames: renames_of(cs) }
}

/// The canonical package a root binding names as seen from `using`: the
/// using crate's rename overlay first, then the global bindings.
pub open spec fn resolve_root_view(v: VocabView, using: Seq<char>, root: Seq<char>) -> Option<
    Seq<char>,
> {
    match first_value(v.renames, (using, underscored(root))) {
        Some(c) => Some(c),
        None => first_value(v.members, underscored(root)),
    }
}

pub(crate) fn pair_lookup(v: &Vec<(String, String)>, key: &str) -> (r: Option<usize>)
    ensures
        r matches Some(i) ==> i < v@.len() && first_value(pairs_view(v@), key@) == Some(v@[i as int].1@),
        r is None ==> first_value(pairs_view(v@), key@) is None,
{
    let ghost s = pairs_view(v@);
    let mut i: usize = 0;
    while i < v.len()
        invariant
            i <= v@.len(),
            s == pairs_view(v@),
            first_value(s.take(i as int), key@) is None,
        decreases v@.len() - i,
    {
        proof {
            lemma_first_value_step(s, i as int, key@);
        }
        if str_eq(v[i].0.as_str(), key) {
            proof {
                lemma_first_value_prefix(s, i + 1, key@);
            }
            return Some(i);
        }
        i = i + 1;
    }
    assert(s.take(i as int) =~= s);
    None
}

fn triple_lookup(v: &Vec<((String, String), String)>, krate: &str, key: &str) -> (r: Option<usize>)
    ensures
        r matches Some(i) ==> i < v@.len() && first_value(triples_view(v@), (krate@, key@)) == Some(
            v@[i as int].1@,
        ),
        r is None ==> first_value(triples_view(v@), (krate@, key@)) is None,
{
    let ghost s = triples_view(v@);
    let mut i: usize = 0;
    while i < v.len()
        invariant
            i <= v@.len(),
            s == triples_view(v@),
            first_value(s.take(i as int), (krate@, key@)) is None,
        decreases v@.len() - i,
    {
        proof {
            lemma_first_value_step(s, i as int, (krate@, key@));
        }
        if str_eq(v[i].0.0.as_str(), krate) && str_eq(v[i].0.1.as_str(), key) {
            proof {
                lemma_first_value_prefix(s, i + 1, (krate@, key@));
            }
            return Some(i);
        }
        i = i + 1;
    }
    assert(s.take(i as int) =~= s);
    None
}

fn bind(members: &mut Vec<(String, String)>, binding: &str, canonical: &str)
    ensures
        pairs_view(final(members)@) == bind_member(pairs_view(old(members)@), binding@, canonical@),
{
    let key = underscored_exec(binding);
    if pair_lookup(members, key.as_str()).is_none() {
        let ghost before = pairs_view(members@);
        members.push((key, canonical.to_owned()));
        assert(pairs_view(members@) =~= before.push((underscored(binding@), canonical@)));
    }
}

impl ResolveVocab {
    /// Builds the vocabulary from the discovered crates: package bindings and
    /// lib-rename bindings into the global table (first-wins, in the crates'
    /// order), each crate's dependency renames into its overlay.
    pub fn from_crates(crates: &IndexMap<String, CrateInfo>) -> (r: Self)
        ensures
            r@ == vocab_of(crate_entries(*crates)),
    {
        let n = crate_count(crates);
        let ghost cs = crate_entries(*crates);
        let mut members: Vec<(String, String)> = Vec::new();
        assert(pairs_view(members@) =~= members_of(cs.take(0)));
        let mut i: usize = 0;
        while i < n
            invariant
                i <= n == cs.len(),
                cs == crate_entries(*crates),
                pairs_view(members@) == members_of(cs.take(i as int)),
            decreases n - i,
        {
            let (pkg, info) = crate_at(crates, i).unwrap();
            assert(cs.take(i + 1).drop_last() =~= cs.take(i as int));
            assert(cs.take(i + 1).last() == cs[i as int]);
            bind(&mut members, pkg.as_str(), pkg.as_str());
            match &info.lib_name {
                Some(lib) => bind(&mut members, lib.as_str(), pkg.as_str()),
                None => {},
            }
            i = i + 1;
        }
        assert(cs.take(n as int) =~= cs);
        let mut renames: Vec<((String, String), String)> = Vec::new();
        assert(triples_view(renames@) =~= renames_of(cs.take(0)));
        let mut i: usize = 0;
        while i < n
            invariant
                i <= n == cs.len(),
                cs == crate_entries(*crates),
                triples_view(renames@) == renames_of(cs.take(i as int)),
            decreases n - i,
        {
            let (pkg, info) = crate_at(crates, i).unwrap();
            assert(cs.take(i + 1).drop_last() =~= cs.take(i as int));
            assert(cs.take(i + 1).last() == cs[i as int]);
            let ghost start = triples_view(renames@);
            let ghost rs = info.renames@;
            assert(rs.take(0) =~= Seq::<(String, String)>::empty());
            let mut j: usize = 0;
            while j < info.renames.len()
                invariant
                    j <= rs.len(),
                    rs == info.renames@,
                    triples_view(renames@) == add_renames(start, pkg@, rs.take(j as int)),
                decreases rs.len() - j,
            {
                assert(rs.take(j + 1).drop_last() =~= rs.take(j as int));
                assert(rs.take(j + 1).last() == rs[j as int]);
                let key = underscored_exec(info.renames[j].0.as_str());
                if triple_lookup(&renames, pkg.as_str(), key.as_str()).is_none() {
                    let ghost before = triples_view(renames@);
                    let dep = info.renames[j].1.clone();
                    renames.push(((pkg.clone(), key), dep));
                    assert(triples_view(renames@) =~= before.push(
                        ((pkg@, underscored(rs[j as int].0@)), rs[j as int].1@),
                    ));
                }
                j = j + 1;
            }
            assert(rs.take(j as int) =~= rs);
            i = i + 1;
        }
        assert(cs.take(n as int) =~= cs);
        ResolveVocab { members, renames_by_crate: renames }
    }

    /// Resolves a source root binding as seen from `using_crate` to the
    /// canonical package name: the crate's dependency-rename overlay first,
    /// then the global package / lib bindings; `None` when the root binds no
    /// in-repo crate.
    pub fn resolve_root(&self, using_crate: &str, root: &str) -> (r: Option<&String>)
        ensures
            r matches Some(c) ==> resolve_root_view(self@, using_crate@, root@) == Some(c@),
            r is None ==> resolve_root_view(self@, using_crate@, root@) is None,
    {
        let key = underscored_exec(root);
        match triple_lookup(&self.renames_by_crate, using_crate, key.as_str()) {
            Some(i) => Some(&self.renames_by_crate[i].1),
            None => match pair_lookup(&self.members, key.as_str()) {
                Some(i) => Some(&self.members[i].1),
                None => None,
            },
        }
    }
}

/// Where a usage-site identifier resolves to, per the using file's imports.
/// `SelfCrate` covers `crate::` / `self::` / `super::` paths plus
/// prelude-shadowing local declarations.
#[derive(Debug, Clone, PartialEq, Eq)]
pub enum IdentOrigin {
    Std,
    External,
    Workspace(String),
    SelfCrate,
    Unresolved,
}

/// The value of an `IdentOrigin`.
pub ghost enum OriginView {
    Std,
    External,
    Workspace(Seq<char>),
    SelfCrate,
    Unresolved,
}

impl View for IdentOrigin {
    type V = OriginView;

    open spec fn view(&self) -> OriginView {
        match self {
            IdentOrigin::Std => OriginView::Std,
            IdentOrigin::External => OriginView::External,
            IdentOrigin::Workspace(c) => OriginView::Workspace(c@),
            IdentOrigin::SelfCrate => OriginView::SelfCrate,
            IdentOrigin::Unresolved => OriginView::Unresolved,
        }
    }
}

/// The Rust 2021/2024 prelude names: an identifier with no import hit that
/// matches one of these resolves to std unless the using crate declares it.
pub const STD_PRELUDE: [&'static str; 40] = [
    "Box",
    "Vec",
    "String",
    "ToString",
    "ToOwned",
    "Clone",
    "Copy",
    "Debug",
    "Default",
    "PartialEq",
    "Eq",
    "PartialOrd",
    "Ord",
    "Hash",
    "Iterator",
    "IntoIterator",
    "DoubleEndedIterator",
    "ExactSizeIterator",
    "Extend",
    "Option",
    "Some",
    "None",
    "Result",
    "Ok",
    "Err",
    "From",
    "Into",
    "TryFrom",
    "TryInto",
    "AsRef",
    "AsMut",
    "Send",
    "Sync",
    "Sized",
    "Unpin",
    "Drop",
    "Fn",
    "FnMut",
    "FnOnce",
    "FromIterator",
];

/// `ident` is one of the prelude names.
pub open spec fn in_prelude(ident: Seq<char>) -> bool {
    exists|i: int| 0 <= i < 40 && (#[trigger] STD_PRELUDE@[i])@ == ident
}

/// Whether `ident` is one of the prelude names.
pub fn in_std_prelude(ident: &str) -> (r: bool)
    ensures
        r == in_prelude(ident@),
{
    let mut i: usize = 0;
    while i < 40
        invariant
            i <= 40,
            forall|k: int| 0 <= k < i ==> (#[trigger] STD_PRELUDE@[k])@ != ident@,
        decreases 40 - i,
    {
        if str_eq(STD_PRELUDE[i], ident) {
            return true;
        }
        i = i + 1;
    }
    false
}

/// A root naming the standard library.
pub open spec fn std_root(r: Seq<char>) -> bool {
    r == "std"@ || r == "core"@ || r == "alloc"@
}

/// A root naming the using crate itself.
pub open spec fn lang_root(r: Seq<char>) -> bool {
    r == "crate"@ || r == "self"@ || r == "super"@
}

fn is_std_root(r: &str) -> (b: bool)
    ensures
        b == std_root(r@),
{
    str_eq(r, "std") || str_eq(r, "core") || str_eq(r, "alloc")
}

fn is_lang_root(r: &str) -> (b: bool)
    ensures
        b == lang_root(r@),
{
    str_eq(r, "crate") || str_eq(r, "self") || str_eq(r, "super")
}

/// The origin of an import root seen from `using`.
pub open spec fn root_origin(root: Seq<char>, using: Seq<char>, vocab: VocabView) -> OriginView {
    if std_root(root) {
        OriginView::Std
    } else if lang_root(root) {
        OriginView::SelfCrate
    } else {
        match resolve_root_view(vocab, using, root) {
            Some(c) => OriginView::Workspace(c),
            None => OriginView::External,
        }
    }
}

/// The origin of `ident` as used in `file` of `using`: the file's import
/// first; then the prelude (self-crate when the using crate declares the
/// name); else unresolved.
pub open spec fn ident_origin(
    file: Seq<char>,
    ident: Seq<char>,
    using: Seq<char>,
    imaps: Seq<((Seq<char>, Seq<char>), (Seq<char>, Option<Seq<char>>))>,
    vocab: VocabView,
    local_decl: Seq<(Seq<char>, Seq<Seq<char>>)>,
) -> OriginView {
    match first_value(imaps, (file, ident)) {
        Some(b) => root_origin(b.0, using, vocab),
        None => if in_prelude(ident) {
            if member_of(local_decl, ident, using) {
                OriginView::SelfCrate
            } else {
                OriginView::Std
            }
        } else {
            OriginView::Unresolved
        },
    }
}

/// The origin of a usage site with an optional written qualifier: a std or
/// language root resolves directly, an in-repo crate binding to that crate,
/// any other root through the file's imports (an unimported root is
/// crate-local when the using crate declares such a module, else external);
/// without a qualifier, the bare identifier's origin.
pub open spec fn site_origin(
    file: Seq<char>,
    ident: Seq<char>,
    qualifier: Option<Seq<char>>,
    using: Seq<char>,
    imaps: Seq<((Seq<char>, Seq<char>), (Seq<char>, Option<Seq<char>>))>,
    vocab: VocabView,
    local_decl: Seq<(Seq<char>, Seq<Seq<char>>)>,
    local_mod: Seq<(Seq<char>, Seq<Seq<char>>)>,
) -> OriginView {
    match qualifier {
        Some(q) => if std_root(q) {
            OriginView::Std
        } else if lang_root(q) {
            OriginView::SelfCrate
        } else {
            match resolve_root_view(vocab, using, q) {
                Some(c) => OriginView::Workspace(c),
                None => match ident_origin(file, q, using, imaps, vocab, local_decl) {
                    OriginView::Unresolved => if member_of(local_mod, q, using) {
                        OriginView::Unresolved
                    } else {
                        OriginView::External
                    },
                    o => o,
                },
            }
        },
        None => ident_origin(file, ident, using, imaps, vocab, local_decl),
    }
}

fn origin_of_root(root: &str, using_crate: &str, vocab: &ResolveVocab) -> (r: IdentOrigin)
    ensures
        r@ == root_origin(root@, using_crate@, vocab@),
{
    if is_std_root(root) {
        IdentOrigin::Std
    } else if is_lang_root(root) {
        IdentOrigin::SelfCrate
    } else {
        match vocab.resolve_root(using_crate, root) {
            Some(c) => IdentOrigin::Workspace(c.clone()),
            None => IdentOrigin::External,
        }
    }
}

/// Resolves `ident` as used in `file` (owned by `using_crate`) to its
/// origin: import map first; then the prelude (with the same-crate shadow
/// check); else `Unresolved`.
pub fn resolve_ident_origin(
    file: &str,
    ident: &str,
    using_crate: &str,
    import_maps: &ImportMaps,
    vocab: &ResolveVocab,
    local_decl_crates: &NameSets,
) -> (r: IdentOrigin)
    ensures
        r@ == ident_origin(file@, ident@, using_crate@, import_maps@, vocab@, local_decl_crates@),
{
    if let Some(binding) = import_maps.get(file, ident) {
        return origin_of_root(binding.root.as_str(), using_crate, vocab);
    }
    if in_std_prelude(ident) {
        if local_decl_crates.contains(ident, using_crate) {
            return IdentOrigin::SelfCrate;
        }
        return IdentOrigin::Std;
    }
    IdentOrigin::Unresolved
}

/// Resolves a usage site that may carry an explicit path qualifier (the
/// written root of a longer path); without one, resolves the bare ident.
pub fn resolve_site_origin(
    file: &str,
    ident: &str,
    qualifier: Option<&str>,
    using_crate: &str,
    import_maps: &ImportMaps,
    vocab: &ResolveVocab,
    local_decl_crates: &NameSets,
    local_mod_crates: &NameSets,
) -> (r: IdentOrigin)
    ensures
        r@ == site_origin(
            file@,
            ident@,
            match qualifier {
                Some(q) => Some(q@),
                None => None,
            },
            using_crate@,
            import_maps@,
            vocab@,
            local_decl_crates@,
            local_mod_crates@,
        ),
{
    match qualifier {
        Some(q) => {
            if is_std_root(q) {
                IdentOrigin::Std
            } else if is_lang_root(q) {
                IdentOrigin::SelfCrate
            } else {
                match vocab.resolve_root(using_crate, q) {
                    Some(c) => IdentOrigin::Workspace(c.clone()),
                    None => {
                        let o = resolve_ident_origin(file, q, using_crate, import_maps, vocab, local_decl_crates);
                        match o {
                            IdentOrigin::Unresolved => {
                                if local_mod_crates.contains(q, using_crate) {
                                    IdentOrigin::Unresolved
                                } else {
                                    IdentOrigin::External
                                }
                            },
                            resolved => resolved,
                        }
                    },
                }
            }
        },
        None => resolve_ident_origin(file, ident, using_crate, import_maps, vocab, local_decl_crates),
    }
}

/// The facade re-export index: each crate's re-exported binding names, and
/// per crate the transitive set of in-repo crates whose whole namespace it
/// re-exports.
#[derive(Debug, Clone)]
pub struct FacadeIndex {
    pub leaf_reexports: NameSets,
    pub ns_closure: NameSets,
}

/// `via` re-exports `ident` by name or re-exports the namespace of
/// `defining`.
pub open spec fn facade_credits(
    leaf: Seq<(Seq<char>, Seq<Seq<char>>)>,
    ns: Seq<(Seq<char>, Seq<Seq<char>>)>,
    via: Seq<char>,
    defining: Seq<char>,
    ident: Seq<char>,
) -> bool {
    member_of(leaf, via, ident) || member_of(ns, via, defining)
}

impl FacadeIndex {
    /// True when `via_crate` re-exports `ident` by name or (transitively)
    /// re-exports the namespace of `defining_crate`.
    pub fn credits(&self, via_crate: &str, defining_crate: &str, ident: &str) -> (r: bool)
        ensures
            r == facade_credits(
                self.leaf_reexports@,
                self.ns_closure@,
                via_crate@,
                defining_crate@,
                ident@,
            ),
    {
        self.leaf_reexports.contains(via_crate, ident) || self.ns_closure.contains(via_crate, defining_crate)
    }
}

/// Whether a site of the given origin credits a pattern declared in
/// `defining`: never for std / external; for a workspace crate when it is the
/// defining crate or a facade of it; for the using crate likewise; always
/// for unresolved sites.
pub open spec fn credits_view(
    origin: OriginView,
    using: Seq<char>,
    defining: Seq<char>,
    ident: Seq<char>,
    leaf: Seq<(Seq<char>, Seq<Seq<char>>)>,
    ns: Seq<(Seq<char>, Seq<Seq<char>>)>,
) -> bool {
    match origin {
        OriginView::Std => false,
        OriginView::External => false,
        OriginView::Workspace(c) => c == defining || facade_credits(leaf, ns, c, defining, ident),
        OriginView::SelfCrate => using == defining || facade_credits(leaf, ns, using, defining, ident),
        OriginView::Unresolved => true,
    }
}

/// True when a usage site is creditable toward a pattern whose declaration
/// lives in `defining_crate`.
pub fn site_credits(
    origin: &IdentOrigin,
    using_crate: &str,
    defining_crate: &str,
    ident: &str,
    facades: &FacadeIndex,
) -> (r: bool)
    ensures
        r == credits_view(
            origin@,
            using_crate@,
            defining_crate@,
            ident@,
            facades.leaf_reexports@,
            facades.ns_closure@,
        ),
{
    match origin {
        IdentOrigin::Std => false,
        IdentOrigin::External => false,
        IdentOrigin::Workspace(c) => str_eq(c.as_str(), defining_crate) || facades.credits(
            c.as_str(),
            defining_crate,
            ident,
        ),
        IdentOrigin::SelfCrate => str_eq(using_crate, defining_crate) || facades.credits(
            using_crate,
            defining_crate,
            ident,
        ),
        IdentOrigin::Unresolved => true,
    }
}

/// Whether the graph `g` (an edge from each key to each member of its set)
/// links consecutive nodes of `p`.
pub open spec fn graph_path(g: Seq<(Seq<char>, Seq<Seq<char>>)>, p: Seq<Seq<char>>) -> bool {
    forall|i: int| 0 <= i < p.len() - 1 ==> member_of(g, #[trigger] p[i], p[i + 1])
}

/// `b` is reachable from `a` in `g` by a path of at least one edge.
pub open spec fn graph_reaches(g: Seq<(Seq<char>, Seq<Seq<char>>)>, a: Seq<char>, b: Seq<char>) -> bool {
    exists|p: Seq<Seq<char>>| p.len() >= 2 && p[0] == a && p.last() == b && #[trigger] graph_path(g, p)
}

/// Every member of every set of `g`.
pub open spec fn targets(g: Seq<(Seq<char>, Seq<Seq<char>>)>) -> Seq<Seq<char>>
    decreases g.len(),
{
    if g.len() == 0 {
        Seq::empty()
    } else {
        targets(g.drop_last()) + g.last().1
    }
}

proof fn lemma_member_in_targets(g: Seq<(Seq<char>, Seq<Seq<char>>)>, k: Seq<char>, y: Seq<char>)
    requires
        member_of(g, k, y),
    ensures
        targets(g).contains(y),
    decreases g.len(),
{
    let i = choose|i: int| 0 <= i < g.len() && (#[trigger] g[i]).0 == k && g[i].1.contains(y);
    let t = g.drop_last();
    if i < g.len() - 1 {
        assert(t[i] == g[i]);
        lemma_member_in_targets(t, k, y);
        let j = choose|j: int| 0 <= j < targets(t).len() && targets(t)[j] == y;
        assert(targets(g)[j] == y);
    } else {
        let j = choose|j: int| 0 <= j < g.last().1.len() && g.last().1[j] == y;
        assert(targets(g)[targets(t).len() + j] == y);
    }
}

proof fn lemma_reaches_one(g: Seq<(Seq<char>, Seq<Seq<char>>)>, a: Seq<char>, y: Seq<char>)
    requires
        member_of(g, a, y),
    ensures
        graph_reaches(g, a, y),
{
    let p = seq![a, y];
    assert(p[0] == a && p[1] == y);
    assert(graph_path(g, p));
}

proof fn lemma_reaches_extend(g: Seq<(Seq<char>, Seq<Seq<char>>)>, a: Seq<char>, x: Seq<char>, y: Seq<char>)
    requires
        graph_reaches(g, a, x),
        member_of(g, x, y),
    ensures
        graph_reaches(g, a, y),
{
    let p = choose|p: Seq<Seq<char>>| p.len() >= 2 && p[0] == a && p.last() == x && #[trigger] graph_path(g, p);
    let q = p.push(y);
    assert forall|i: int| 0 <= i < q.len() - 1 implies member_of(g, #[trigger] q[i], q[i + 1]) by {
        if i < p.len() - 1 {
            assert(q[i] == p[i] && q[i + 1] == p[i + 1]);
        } else {
            assert(q[i] == x && q[i + 1] == y);
        }
    }
    assert(q[0] == a && q.last() == y);
    assert(graph_path(g, q));
}

/// A set that holds the successors of `a` and is closed under successors
/// (apart from `a` itself) holds everything reachable from `a` but `a`.
proof fn lemma_closed_holds_reachable(
    g: Seq<(Seq<char>, Seq<Seq<char>>)>,
    a: Seq<char>,
    r: Seq<Seq<char>>,
    b: Seq<char>,
)
    requires
        forall|y: Seq<char>| #[trigger] member_of(g, a, y) ==> y == a || r.contains(y),
        forall|x: Seq<char>, y: Seq<char>|
            r.contains(x) && #[trigger] member_of(g, x, y) ==> y == a || r.contains(y),
        graph_reaches(g, a, b),
    ensures
        b == a || r.contains(b),
{
    let p = choose|p: Seq<Seq<char>>| p.len() >= 2 && p[0] == a && p.last() == b && #[trigger] graph_path(g, p);
    lemma_path_stays(g, a, r, p, p.len() - 1);
}

proof fn lemma_path_stays(
    g: Seq<(Seq<char>, Seq<Seq<char>>)>,
    a: Seq<char>,
    r: Seq<Seq<char>>,
    p: Seq<Seq<char>>,
    i: int,
)
    requires
        forall|y: Seq<char>| #[trigger] member_of(g, a, y) ==> y == a || r.contains(y),
        forall|x: Seq<char>, y: Seq<char>|
            r.contains(x) && #[trigger] member_of(g, x, y) ==> y == a || r.contains(y),
        p.len() >= 2,
        p[0] == a,
        graph_path(g, p),
        0 <= i < p.len(),
    ensures
        p[i] == a || r.contains(p[i]),
    decreases i,
{
    if i > 0 {
        lemma_path_stays(g, a, r, p, i - 1);
        assert(member_of(g, p[i - 1], p[i]));
    }
}

proof fn lemma_distinct_bound(r: Seq<Seq<char>>, u: Seq<Seq<char>>)
    requires
        r.no_duplicates(),
        forall|x: Seq<char>| r.contains(x) ==> u.contains(x),
    ensures
        r.len() <= u.len(),
{
    r.unique_seq_to_set();
    u.lemma_cardinality_of_set();
    vstd::seq_lib::seq_to_set_is_finite(u);
    assert(r.to_set().subset_of(u.to_set()));
    vstd::set_lib::lemma_len_subset(r.to_set(), u.to_set());
}

/// Appends copies of `src` to `dst`.
fn extend_strings(dst: &mut Vec<String>, src: &Vec<String>)
    ensures
        strings_view(final(dst)@) == strings_view(old(dst)@) + strings_view(src@),
{
    let ghost start = strings_view(dst@);
    let mut i: usize = 0;
    while i < src.len()
        invariant
            i <= src@.len(),
            strings_view(dst@) == start + strings_view(src@).take(i as int),
        decreases src@.len() - i,
    {
        let c = src[i].clone();
        assert(c@ == strings_view(src@)[i as int]);
        let ghost d0 = dst@;
        dst.push(c);
        assert(strings_view(dst@) =~= strings_view(d0).push(c@));
        assert(strings_view(src@).take(i + 1) =~= strings_view(src@).take(i as int).push(c@));
        assert(strings_view(dst@) =~= start + strings_view(src@).take(i + 1));
        i = i + 1;
    }
    assert(strings_view(src@).take(i as int) =~= strings_view(src@));
}

impl NameSets {
    /// Every member of the set named `key`, possibly repeated.
    pub fn members(&self, key: &str) -> (r: Vec<String>)
        ensures
            forall|y: Seq<char>| #[trigger] strings_view(r@).contains(y) <==> member_of(self@, key@, y),
    {
        let mut r: Vec<String> = Vec::new();
        let mut i: usize = 0;
        while i < self.entries.len()
            invariant
                i <= self.entries@.len(),
                forall|y: Seq<char>| #[trigger] strings_view(r@).contains(y) <==> exists|k: int|
                    0 <= k < i && (#[trigger] self@[k]).0 == key@ && self@[k].1.contains(y),
            decreases self.entries@.len() - i,
        {
            if str_eq(self.entries[i].0.as_str(), key) {
                let ghost before = strings_view(r@);
                extend_strings(&mut r, &self.entries[i].1);
                assert forall|y: Seq<char>| #[trigger] strings_view(r@).contains(y) <==> exists|k: int|
                    0 <= k < i + 1 && (#[trigger] self@[k]).0 == key@ && self@[k].1.contains(y) by {
                    let add = strings_view(self.entries@[i as int].1@);
                    assert(add == self@[i as int].1);
                    if strings_view(r@).contains(y) {
                        let j = choose|j: int| 0 <= j < strings_view(r@).len() && strings_view(r@)[j] == y;
                        if j >= before.len() {
                            assert(add[j - before.len()] == y);
                        } else {
                            assert(before[j] == y);
                            assert(before.contains(y));
                        }
                    }
                    if exists|k: int| 0 <= k < i + 1 && (#[trigger] self@[k]).0 == key@ && self@[k].1.contains(y) {
                        let k = choose|k: int| 0 <= k < i + 1 && (#[trigger] self@[k]).0 == key@ && self@[k].1.contains(y);
                        if k == i {
                            let j = choose|j: int| 0 <= j < add.len() && add[j] == y;
                            assert(strings_view(r@)[before.len() + j] == y);
                        } else {
                            assert(before.contains(y));
                            let j = choose|j: int| 0 <= j < before.len() && before[j] == y;
                            assert(strings_view(r@)[j] == y);
                        }
                    }
                }
            }
            i = i + 1;
        }
        r
    }
}

/// Everything reachable from `start` in `g` except `start` itself, each once.
fn namespace_reach(g: &NameSets, start: &str) -> (r: Vec<String>)
    ensures
        strings_view(r@).no_duplicates(),
        forall|b: Seq<char>| #[trigger] strings_view(r@).contains(b) <==> (b != start@ && graph_reaches(g@, start@, b)),
{
    let ghost gv = g@;
    let ghost u = targets(gv);
    let mut reach: Vec<String> = Vec::new();
    let mut queue: Vec<String> = g.members(start);
    proof {
        assert forall|x: Seq<char>| #[trigger] strings_view(queue@).contains(x) implies graph_reaches(gv, start@, x) && u.contains(x) by {
            lemma_reaches_one(gv, start@, x);
            lemma_member_in_targets(gv, start@, x);
        }
    }
    while queue.len() > 0
        invariant
            gv == g@,
            u == targets(gv),
            strings_view(reach@).no_duplicates(),
            forall|x: Seq<char>| #[trigger] strings_view(reach@).contains(x) ==> x != start@ && graph_reaches(gv, start@, x) && u.contains(x),
            forall|x: Seq<char>| #[trigger] strings_view(queue@).contains(x) ==> graph_reaches(gv, start@, x) && u.contains(x),
            forall|y: Seq<char>| #[trigger] member_of(gv, start@, y) ==> y == start@ || strings_view(reach@).contains(y) || strings_view(queue@).contains(y),
            forall|x: Seq<char>, y: Seq<char>| strings_view(reach@).contains(x) && #[trigger] member_of(gv, x, y) ==> y == start@ || strings_view(reach@).contains(y) || strings_view(queue@).contains(y),
        decreases u.len() - reach@.len(), queue@.len(),
    {
        proof {
            lemma_distinct_bound(strings_view(reach@), u);
        }
        let ghost q0 = strings_view(queue@);
        let k = queue.pop().unwrap();
        assert(q0 =~= strings_view(queue@).push(k@));
        assert(q0.contains(k@)) by {
            assert(q0[q0.len() - 1] == k@);
        }
        proof {
            assert forall|x: Seq<char>| #[trigger] strings_view(queue@).contains(x) implies q0.contains(x) by {
                let j = choose|j: int| 0 <= j < strings_view(queue@).len() && strings_view(queue@)[j] == x;
                assert(q0[j] == x);
            }
            assert forall|x: Seq<char>| #[trigger] q0.contains(x) implies x == k@ || strings_view(queue@).contains(x) by {
                let j = choose|j: int| 0 <= j < q0.len() && q0[j] == x;
                if j < q0.len() - 1 {
                    assert(strings_view(queue@)[j] == x);
                }
            }
        }
        if str_eq(k.as_str(), start) || strings_contain(&reach, k.as_str()) {
            continue;
        }
        let ghost r0 = strings_view(reach@);
        reach.push(k.clone());
        assert(strings_view(reach@) =~= r0.push(k@));
        let succ = g.members(k.as_str());
        let ghost q1 = strings_view(queue@);
        extend_strings(&mut queue, &succ);
        proof {
            assert forall|x: Seq<char>| #[trigger] strings_view(queue@).contains(x) implies graph_reaches(gv, start@, x) && u.contains(x) by {
                let j = choose|j: int| 0 <= j < strings_view(queue@).len() && strings_view(queue@)[j] == x;
                if j < q1.len() {
                    assert(q1[j] == x);
                    assert(q0[j] == x);
                    assert(q0.contains(x));
                } else {
                    assert(strings_view(succ@)[j - q1.len()] == x);
                    assert(strings_view(succ@).contains(x));
                    lemma_reaches_extend(gv, start@, k@, x);
                    lemma_member_in_targets(gv, k@, x);
                }
            }
            assert forall|x: Seq<char>| #[trigger] strings_view(reach@).contains(x) implies x != start@ && graph_reaches(gv, start@, x) && u.contains(x) by {
                if x != k@ {
                    let j = choose|j: int| 0 <= j < strings_view(reach@).len() && strings_view(reach@)[j] == x;
                    assert(r0[j] == x);
                    assert(r0.contains(x));
                }
            }
            assert forall|y: Seq<char>| q1.contains(y) implies strings_view(queue@).contains(y) by {
                let j = choose|j: int| 0 <= j < q1.len() && q1[j] == y;
                assert(strings_view(queue@)[j] == y);
            }
            assert forall|y: Seq<char>| r0.contains(y) implies strings_view(reach@).contains(y) by {
                let j = choose|j: int| 0 <= j < r0.len() && r0[j] == y;
                assert(strings_view(reach@)[j] == y);
            }
            assert forall|y: Seq<char>| #[trigger] member_of(gv, k@, y) implies strings_view(queue@).contains(y) by {
                assert(strings_view(succ@).contains(y));
                let j = choose|j: int| 0 <= j < strings_view(succ@).len() && strings_view(succ@)[j] == y;
                assert(strings_view(queue@)[q1.len() + j] == y);
            }
            assert(strings_view(reach@).contains(k@)) by {
                assert(strings_view(reach@)[r0.len() as int] == k@);
            }
            assert forall|y: Seq<char>| q0.contains(y) implies strings_view(queue@).contains(y) || strings_view(reach@).contains(y) by {
                let j = choose|j: int| 0 <= j < q0.len() && q0[j] == y;
                if j < q1.len() {
                    assert(q1[j] == y);
                }
            }
            lemma_distinct_bound(strings_view(reach@), u);
        }
    }
    proof {
        assert forall|b: Seq<char>| #[trigger] strings_view(reach@).contains(b) <==> (b != start@ && graph_reaches(gv, start@, b)) by {
            if b != start@ && graph_reaches(gv, start@, b) {
                lemma_closed_holds_reachable(gv, start@, strings_view(reach@), b);
            }
        }
    }
    reach
}

/// The set of names bound by the named leaves of one use path of `k`.
pub open spec fn named_leaf_sets(k: Seq<char>, leaves: Seq<LeafView>) -> Seq<(Seq<char>, Seq<Seq<char>>)>
    decreases leaves.len(),
{
    if leaves.len() == 0 {
        Seq::empty()
    } else {
        let prev = named_leaf_sets(k, leaves.drop_last());
        match leaves.last() {
            LeafView::Named { binding, source: _ } => prev.push((k, seq![binding])),
            LeafView::Glob { .. } => prev,
        }
    }
}

/// The re-exported binding names of a list of (crate, `pub use` path) pairs.
pub open spec fn leaf_sets(us: Seq<(Seq<char>, Seq<char>)>) -> Seq<(Seq<char>, Seq<Seq<char>>)>
    decreases us.len(),
{
    if us.len() == 0 {
        Seq::empty()
    } else {
        let prev = leaf_sets(us.drop_last());
        let parsed = parse_view(us.last().1);
        if parsed.0.len() == 0 {
            prev
        } else {
            prev + named_leaf_sets(us.last().0, parsed.1)
        }
    }
}

/// The crate whose whole namespace a `pub use` path of `krate` re-exports:
/// a path with a root and no brace group whose base (before any ` as `
/// rename) is a single segment or a root glob `k::*`, naming through the
/// vocabulary an in-repo crate other than `krate`.
pub open spec fn namespace_edge_target(krate: Seq<char>, path: Seq<char>, vocab: VocabView) -> Option<
    Seq<char>,
> {
    let root = parse_view(path).0;
    let t = trim(path);
    let base = match rsplit_once(t, as_sep()) {
        Some(p) => trim(p.0),
        None => t,
    };
    let crate_level = !contains_seq(base, colons());
    let root_glob = match split_once(base, colons()) {
        Some(p) => trim(p.1) == seq!['*'],
        None => false,
    };
    if root.len() == 0 || contains_seq(t, seq!['{']) || !(crate_level || root_glob) {
        None
    } else {
        match resolve_root_view(vocab, krate, root) {
            Some(c) => if c != krate {
                Some(c)
            } else {
                None
            },
            None => None,
        }
    }
}

/// The namespace re-export edges of a list of (crate, `pub use` path) pairs.
pub open spec fn namespace_edges(us: Seq<(Seq<char>, Seq<char>)>, vocab: VocabView) -> Seq<
    (Seq<char>, Seq<Seq<char>>),
>
    decreases us.len(),
{
    if us.len() == 0 {
        Seq::empty()
    } else {
        let prev = namespace_edges(us.drop_last(), vocab);
        match namespace_edge_target(us.last().0, us.last().1, vocab) {
            Some(c) => prev.push((us.last().0, seq![c])),
            None => prev,
        }
    }
}

fn edge_target(krate: &str, path: &str, root: &String, vocab: &ResolveVocab) -> (r: Option<String>)
    requires
        root@ == parse_view(path@).0,
    ensures
        opt_view(r) == namespace_edge_target(krate@, path@, vocab@),
{
    let cs = chars_of(path);
    let t = trim_exec(&cs);
    let open = vec!['{'];
    let colon2 = vec![':', ':'];
    let as_kw = vec![' ', 'a', 's', ' '];
    let star = vec!['*'];
    assert(colon2@ =~= colons());
    assert(as_kw@ =~= as_sep());
    assert(star@ =~= seq!['*']);
    assert(open@ =~= seq!['{']);
    if root.as_str().is_empty() || chars_contain(&t, &open) {
        return None;
    }
    let base = match rsplit_once_exec(&t, &as_kw) {
        Some((b, _)) => trim_exec(&b),
        None => t,
    };
    let crate_level = !chars_contain(&base, &colon2);
    let found = find_from_exec(&base, &colon2, 0);
    proof {
        lemma_find_from_sound(base@, colon2@, 0);
    }
    let root_glob = match found {
        Some(j) => {
            assert(colon2@.len() == 2);
            assert(occurs_at(base@, colon2@, j as int));
            let bl = base.len();
            assert(j + 2 <= bl);
            let rest = slice_vec(&base, j + 2, bl);
            let rt = trim_exec(&rest);
            chars_eq(&rt, &star)
        },
        None => false,
    };
    if !(crate_level || root_glob) {
        return None;
    }
    match vocab.resolve_root(krate, root.as_str()) {
        Some(c) => {
            if str_eq(c.as_str(), krate) {
                None
            } else {
                Some(c.clone())
            }
        },
        None => None,
    }
}

/// Builds the facade index from (crate, `pub use` path) pairs: every named
/// leaf's binding into the crate's re-export set, and the crate-level
/// namespace edges expanded to their transitive closure.
pub fn build_facade_index(reexports: &[(String, String)], vocab: &ResolveVocab) -> (r: FacadeIndex)
    requires
        forall|i: int| 0 <= i < reexports@.len() ==> use_path_defined(#[trigger] reexports@[i].1@),
    ensures
        r.leaf_reexports@ == leaf_sets(pairs_view(reexports@)),
        forall|a: Seq<char>, b: Seq<char>| #[trigger] member_of(r.ns_closure@, a, b) <==> (b != a
            && graph_reaches(namespace_edges(pairs_view(reexports@), vocab@), a, b)),
{
    let ghost us = pairs_view(reexports@);
    let mut leaf = NameSets::new();
    let mut edges = NameSets::new();
    let mut i: usize = 0;
    assert(us.take(0) =~= Seq::<(Seq<char>, Seq<char>)>::empty());
    while i < reexports.len()
        invariant
            i <= reexports@.len(),
            us == pairs_view(reexports@),
            forall|k: int| 0 <= k < reexports@.len() ==> use_path_defined(#[trigger] reexports@[k].1@),
            leaf@ == leaf_sets(us.take(i as int)),
            edges@ == namespace_edges(us.take(i as int), vocab@),
        decreases reexports@.len() - i,
    {
        let krate = &reexports[i].0;
        let path = &reexports[i].1;
        assert(use_path_defined(reexports@[i as int].1@));
        let parsed = parse_use_leaves(path.as_str());
        assert(us.take(i + 1).drop_last() =~= us.take(i as int));
        assert(us.take(i + 1).last() == (krate@, path@));
        if !parsed.root.as_str().is_empty() {
            let ghost start = leaf@;
            let ghost lv = leaf_views(parsed.leaves@);
            assert(start + named_leaf_sets(krate@, lv.take(0)) =~= start);
            let mut j: usize = 0;
            while j < parsed.leaves.len()
                invariant
                    j <= parsed.leaves@.len(),
                    lv == leaf_views(parsed.leaves@),
                    leaf@ == start + named_leaf_sets(krate@, lv.take(j as int)),
                decreases parsed.leaves@.len() - j,
            {
                assert(lv.take(j + 1).drop_last() =~= lv.take(j as int));
                assert(lv.take(j + 1).last() == parsed.leaves@[j as int]@);
                match &parsed.leaves[j] {
                    UseLeaf::Named { binding, source: _ } => {
                        let ghost before = leaf@;
                        let mut one: Vec<String> = Vec::new();
                        one.push(binding.clone());
                        assert(strings_view(one@) =~= seq![binding@]);
                        leaf.entries.push((krate.clone(), one));
                        assert(leaf@ =~= before.push((krate@, seq![binding@])));
                        assert(leaf@ =~= start + named_leaf_sets(krate@, lv.take(j + 1)));
                    },
                    UseLeaf::Glob { .. } => {},
                }
                j = j + 1;
            }
            assert(lv.take(j as int) =~= lv);
        }
        let target = edge_target(krate.as_str(), path.as_str(), &parsed.root, vocab);
        match target {
            Some(c) => {
                let ghost before = edges@;
                let mut one: Vec<String> = Vec::new();
                one.push(c);
                assert(strings_view(one@) =~= seq![opt_view(target)->Some_0]);
                edges.entries.push((krate.clone(), one));
                assert(edges@ =~= before.push((krate@, seq![opt_view(target)->Some_0])));
            },
            None => {},
        }
        i = i + 1;
    }
    assert(us.take(i as int) =~= us);
    let ghost gv = edges@;
    let mut ns = NameSets::new();
    let mut e: usize = 0;
    while e < edges.entries.len()
        invariant
            e <= edges.entries@.len(),
            gv == edges@,
            forall|a: Seq<char>, b: Seq<char>| #[trigger] member_of(ns@, a, b) <==> ((exists|k: int|
                0 <= k < e && (#[trigger] gv[k]).0 == a) && b != a && graph_reaches(gv, a, b)),
        decreases edges.entries@.len() - e,
    {
        let start = &edges.entries[e].0;
        let reach = namespace_reach(&edges, start.as_str());
        let ghost before = ns@;
        ns.entries.push((start.clone(), reach));
        assert(ns@ =~= before.push((start@, strings_view(reach@))));
        assert forall|a: Seq<char>, b: Seq<char>| #[trigger] member_of(ns@, a, b) <==> ((exists|k: int|
            0 <= k < e + 1 && (#[trigger] gv[k]).0 == a) && b != a && graph_reaches(gv, a, b)) by {
            if member_of(ns@, a, b) {
                let k = choose|k: int| 0 <= k < ns@.len() && (#[trigger] ns@[k]).0 == a && ns@[k].1.contains(b);
                if k < before.len() {
                    assert(before[k] == ns@[k]);
                    assert(member_of(before, a, b));
                } else {
                    assert(gv[e as int].0 == a);
                }
            }
            if (exists|k: int| 0 <= k < e + 1 && (#[trigger] gv[k]).0 == a) && b != a && graph_reaches(gv, a, b) {
                let k = choose|k: int| 0 <= k < e + 1 && (#[trigger] gv[k]).0 == a;
                if k == e {
                    assert(ns@[before.len() as int] == (start@, strings_view(reach@)));
                } else {
                    assert(member_of(before, a, b));
                    let m = choose|m: int| 0 <= m < before.len() && (#[trigger] before[m]).0 == a && before[m].1.contains(b);
                    assert(ns@[m] == before[m]);
                }
            }
        }
        e = e + 1;
    }
    proof {
        assert forall|a: Seq<char>, b: Seq<char>| #[trigger] member_of(ns@, a, b) <==> (b != a
            && graph_reaches(gv, a, b)) by {
            if b != a && graph_reaches(gv, a, b) {
                let p = choose|p: Seq<Seq<char>>| p.len() >= 2 && p[0] == a && p.last() == b && #[trigger] graph_path(gv, p);
                assert(member_of(gv, p[0], p[1]));
            }
        }
    }
    FacadeIndex { leaf_reexports: leaf, ns_closure: ns }
}

proof fn lemma_add_leaves_keeps(
    es: Seq<((Seq<char>, Seq<char>), (Seq<char>, Option<Seq<char>>))>,
    file: Seq<char>,
    root: Seq<char>,
    leaves: Seq<LeafView>,
    k: (Seq<char>, Seq<char>),
)
    requires
        first_value(es, k) is Some,
    ensures
        first_value(add_leaves(es, file, root, leaves), k) == first_value(es, k),
    decreases leaves.len(),
{
    if leaves.len() > 0 {
        let prev = add_leaves(es, file, root, leaves.drop_last());
        lemma_add_leaves_keeps(es, file, root, leaves.drop_last(), k);
        match leaves.last() {
            LeafView::Named { binding, source } => {
                lemma_first_value_push(prev, ((file, binding), (root, source)), k);
            },
            LeafView::Glob { .. } => {},
        }
    }
}

/// First-wins imports: once the uses read so far bind `name` in `file`, no
/// later use path changes that binding.
pub proof fn lemma_import_first_wins(
    uses: Seq<(Seq<char>, Seq<char>)>,
    more: Seq<(Seq<char>, Seq<char>)>,
    file: Seq<char>,
    name: Seq<char>,
)
    requires
        first_value(import_entries(uses), (file, name)) is Some,
    ensures
        first_value(import_entries(uses + more), (file, name)) == first_value(
            import_entries(uses),
            (file, name),
        ),
    decreases more.len(),
{
    if more.len() == 0 {
        assert(uses + more =~= uses);
    } else {
        let all = uses + more;
        assert(all.drop_last() =~= uses + more.drop_last());
        lemma_import_first_wins(uses, more.drop_last(), file, name);
        let parsed = parse_view(all.last().1);
        if parsed.0.len() > 0 {
            lemma_add_leaves_keeps(
                import_entries(all.drop_last()),
                all.last().0,
                parsed.0,
                parsed.1,
                (file, name),
            );
        }
    }
}

/// Namespace re-exports chain: a crate that re-exports the namespace of `b`,
/// which re-exports the namespace of `c`, re-exports the namespace of `c`
/// (unless `c` is the crate itself).
pub proof fn lemma_namespace_closure_transitive(
    reexports: Seq<(Seq<char>, Seq<char>)>,
    vocab: VocabView,
    a: Seq<char>,
    b: Seq<char>,
    c: Seq<char>,
)
    requires
        graph_reaches(namespace_edges(reexports, vocab), a, b),
        graph_reaches(namespace_edges(reexports, vocab), b, c),
    ensures
        graph_reaches(namespace_edges(reexports, vocab), a, c),
{
    let g = namespace_edges(reexports, vocab);
    let p = choose|p: Seq<Seq<char>>| p.len() >= 2 && p[0] == a && p.last() == b && #[trigger] graph_path(g, p);
    let q = choose|q: Seq<Seq<char>>| q.len() >= 2 && q[0] == b && q.last() == c && #[trigger] graph_path(g, q);
    let w = p + q.drop_first();
    assert forall|i: int| 0 <= i < w.len() - 1 implies member_of(g, #[trigger] w[i], w[i + 1]) by {
        if i < p.len() - 1 {
            assert(w[i] == p[i] && w[i + 1] == p[i + 1]);
        } else if i == p.len() - 1 {
            assert(w[i] == b && w[i + 1] == q[1]);
            assert(member_of(g, q[0], q[1]));
        } else {
            let m = i - p.len() + 1;
            assert(w[i] == q[m] && w[i + 1] == q[m + 1]);
        }
    }
    assert(w[0] == a);
    assert(w.last() == q.last());
    assert(graph_path(g, w));
}

} // verus!
