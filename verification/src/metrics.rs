//! Pattern attribution: the defining-crate lookups built from declaration
//! facts, the lookup chain that attributes a pattern to its declaring crate,
//! the per-site crediting of a pattern's usages, and the translation of
//! kind-keyed metrics into group-keyed ones.

use vstd::prelude::*;
use indexmap::IndexMap;
use crate::assoc::{first_value, has_key, key_pos, lemma_first_value_push, lemma_key_pos, lemma_key_pos_prefix};
use crate::config::{FiltersConfig, matches_any_substring, should_skip_pattern};
use crate::crate_map::crate_entries;
use crate::fingerprint::{CrateInfo, MetricView, PatternMetric};
use crate::resolution::{
    build_facade_index, build_import_bindings, graph_reaches, import_entries, leaf_sets, member_of, namespace_edges,
    vocab_of, clone_opt, pairs_view, FacadeIndex, IdentOrigin, ImportMaps, NameSets, OriginView, ResolveVocab, credits_view, opt_view, resolve_site_origin,
    site_credits, site_origin, strings_contain, strings_view,
};
use crate::lexical::{before_first, before_first_exec};
use crate::modules::{counts_view, forward_slashes, forward_slashes_exec};
use crate::use_tree::use_path_defined;
use crate::sorting::{dedup_sorted_strings, sort_strings, strictly_sorted_strings};
use crate::text::{chars_of, push_str, starts_with, str_contains, str_eq, str_starts_with, string_of};
use crate::usage::{in_benches, in_examples, in_examples_exec, in_tests};

verus! {

/// A declaration fact of a type, trait or module: its name, declaring
/// crate, visibility text and (for types) its kind (`struct`, `enum`, ...).
#[derive(Debug, Clone)]
pub struct ItemDecl {
    pub name: Option<String>,
    pub crate_name: Option<String>,
    pub visibility: Option<String>,
    pub kind: Option<String>,
}

/// A `macro_rules!` definition fact: name, declaring crate, visibility and
/// whether it is `#[macro_export]`ed.
#[derive(Debug, Clone)]
pub struct MacroDecl {
    pub name: Option<String>,
    pub crate_name: Option<String>,
    pub visibility: Option<String>,
    pub macro_exported: bool,
}

/// An impl block's target: the implementing type's name and the crate the
/// impl lives in.
#[derive(Debug, Clone)]
pub struct ImplSite {
    pub target_type: Option<String>,
    pub crate_name: Option<String>,
}

/// Where a pattern is declared: the declaring crate, the declaration's
/// visibility text and whether a macro is exported.
#[derive(Debug, Clone)]
pub struct PatternDef {
    pub crate_name: String,
    pub visibility: String,
    pub macro_exported: bool,
}

/// The value of a `PatternDef`.
pub ghost struct DefView {
    pub crate_name: Seq<char>,
    pub visibility: Seq<char>,
    pub macro_exported: bool,
}

impl View for PatternDef {
    type V = DefView;

    open spec fn view(&self) -> DefView {
        DefView { crate_name: self.crate_name@, visibility: self.visibility@, macro_exported: self.macro_exported }
    }
}

/// The value of a lookup table: each name with its declaration.
pub open spec fn defs_view(s: Seq<(String, PatternDef)>) -> Seq<(Seq<char>, DefView)> {
    s.map_values(|p: (String, PatternDef)| (p.0@, p.1@))
}

/// A visibility text, empty when absent.
pub open spec fn text_or_empty(v: Option<String>) -> Seq<char> {
    match v {
        Some(s) => s@,
        None => Seq::empty(),
    }
}

pub(crate) fn owned_or_empty(v: &Option<String>) -> (r: String)
    ensures
        r@ == text_or_empty(*v),
{
    match v {
        Some(s) => s.clone(),
        None => String::new(),
    }
}

/// The first-declaration lookup of trait or module facts: each named fact
/// with a crate binds its name unless an earlier fact already did.
pub open spec fn first_decls(ds: Seq<ItemDecl>) -> Seq<(Seq<char>, DefView)>
    decreases ds.len(),
{
    if ds.len() == 0 {
        Seq::empty()
    } else {
        let prev = first_decls(ds.drop_last());
        let d = ds.last();
        match (d.name, d.crate_name) {
            (Some(n), Some(c)) => if has_key(prev, n@) {
                prev
            } else {
                prev.push((n@, DefView { crate_name: c@, visibility: text_or_empty(d.visibility), macro_exported: false }))
            },
            _ => prev,
        }
    }
}

/// The first-definition lookup of macro facts, carrying the export flag.
pub open spec fn first_macro_defs(ds: Seq<MacroDecl>) -> Seq<(Seq<char>, DefView)>
    decreases ds.len(),
{
    if ds.len() == 0 {
        Seq::empty()
    } else {
        let prev = first_macro_defs(ds.drop_last());
        let d = ds.last();
        match (d.name, d.crate_name) {
            (Some(n), Some(c)) => if has_key(prev, n@) {
                prev
            } else {
                prev.push(
                    (n@, DefView { crate_name: c@, visibility: text_or_empty(d.visibility), macro_exported: d.macro_exported }),
                )
            },
            _ => prev,
        }
    }
}

fn table_binds(t: &Vec<(String, PatternDef)>, name: &str) -> (r: bool)
    ensures
        r == has_key(defs_view(t@), name@),
{
    let ghost tv = defs_view(t@);
    let mut i: usize = 0;
    while i < t.len()
        invariant
            i <= t@.len(),
            tv == defs_view(t@),
            !has_key(tv.take(i as int), name@),
        decreases t@.len() - i,
    {
        proof {
            assert(tv.take(i + 1).drop_last() =~= tv.take(i as int));
        }
        if str_eq(t[i].0.as_str(), name) {
            proof {
                crate::assoc::lemma_first_value_exists(tv, name@);
                assert(tv[i as int].0 == name@);
            }
            return true;
        }
        i = i + 1;
    }
    assert(tv.take(i as int) =~= tv);
    false
}

fn first_decl_lookup(ds: &Vec<ItemDecl>) -> (r: Vec<(String, PatternDef)>)
    ensures
        defs_view(r@) == first_decls(ds@),
{
    let mut r: Vec<(String, PatternDef)> = Vec::new();
    let mut i: usize = 0;
    while i < ds.len()
        invariant
            i <= ds@.len(),
            defs_view(r@) == first_decls(ds@.take(i as int)),
        decreases ds@.len() - i,
    {
        proof {
            assert(ds@.take(i + 1).drop_last() =~= ds@.take(i as int));
        }
        let d = &ds[i];
        match (&d.name, &d.crate_name) {
            (Some(n), Some(c)) => {
                if !table_binds(&r, n.as_str()) {
                    let ghost before = defs_view(r@);
                    let def = PatternDef { crate_name: c.clone(), visibility: owned_or_empty(&d.visibility), macro_exported: false };
                    r.push((n.clone(), def));
                    assert(defs_view(r@) =~= before.push((n@, def@)));
                }
            },
            _ => {},
        }
        i = i + 1;
    }
    assert(ds@.take(i as int) =~= ds@);
    r
}

/// The trait lookup: each trait name bound to its first declaration.
pub fn build_trait_lookup(traits: &Vec<ItemDecl>) -> (r: Vec<(String, PatternDef)>)
    ensures
        defs_view(r@) == first_decls(traits@),
{
    first_decl_lookup(traits)
}

/// The module lookup: each module name bound to its first declaration.
pub fn build_mod_lookup(mods: &Vec<ItemDecl>) -> (r: Vec<(String, PatternDef)>)
    ensures
        defs_view(r@) == first_decls(mods@),
{
    first_decl_lookup(mods)
}

/// The macro lookup: each macro name bound to its first definition, with
/// its export flag.
pub fn build_macro_def_lookup(defs: &Vec<MacroDecl>) -> (r: Vec<(String, PatternDef)>)
    ensures
        defs_view(r@) == first_macro_defs(defs@),
{
    let mut r: Vec<(String, PatternDef)> = Vec::new();
    let mut i: usize = 0;
    while i < defs.len()
        invariant
            i <= defs@.len(),
            defs_view(r@) == first_macro_defs(defs@.take(i as int)),
        decreases defs@.len() - i,
    {
        proof {
            assert(defs@.take(i + 1).drop_last() =~= defs@.take(i as int));
        }
        let d = &defs[i];
        match (&d.name, &d.crate_name) {
            (Some(n), Some(c)) => {
                if !table_binds(&r, n.as_str()) {
                    let ghost before = defs_view(r@);
                    let def = PatternDef {
                        crate_name: c.clone(),
                        visibility: owned_or_empty(&d.visibility),
                        macro_exported: d.macro_exported,
                    };
                    r.push((n.clone(), def));
                    assert(defs_view(r@) =~= before.push((n@, def@)));
                }
            },
            _ => {},
        }
        i = i + 1;
    }
    assert(defs@.take(i as int) =~= defs@);
    r
}

/// The number of impls of type `t` in crate `c`.
pub open spec fn impl_count(impls: Seq<ImplSite>, t: Seq<char>, c: Seq<char>) -> nat
    decreases impls.len(),
{
    if impls.len() == 0 {
        0
    } else {
        impl_count(impls.drop_last(), t, c) + if opt_view(impls.last().target_type) == Some(t) && opt_view(
            impls.last().crate_name,
        ) == Some(c) {
            1nat
        } else {
            0nat
        }
    }
}
/// The count a table holds for a (type, crate) pair; zero when absent.
pub open spec fn table_count(s: Seq<((Seq<char>, Seq<char>), nat)>, t: Seq<char>, c: Seq<char>) -> nat {
    match first_value(s, (t, c)) {
        Some(n) => n,
        None => 0,
    }
}

proof fn lemma_impl_count_bounded(impls: Seq<ImplSite>, t: Seq<char>, c: Seq<char>)
    ensures
        impl_count(impls, t, c) <= impls.len(),
    decreases impls.len(),
{
    if impls.len() > 0 {
        lemma_impl_count_bounded(impls.drop_last(), t, c);
    }
}

fn pair_pos(t: &Vec<((String, String), usize)>, a: &str, b: &str) -> (r: Option<usize>)
    ensures
        match r {
            Some(j) => key_pos(counts_view(t@), (a@, b@)) == Some(j as int),
            None => key_pos(counts_view(t@), (a@, b@)) is None,
        },
{
    let ghost tv = counts_view(t@);
    let mut i: usize = 0;
    while i < t.len()
        invariant
            i <= t@.len(),
            tv == counts_view(t@),
            key_pos(tv.take(i as int), (a@, b@)) is None,
        decreases t@.len() - i,
    {
        proof {
            assert(tv.take(i + 1).drop_last() =~= tv.take(i as int));
        }
        if str_eq(t[i].0.0.as_str(), a) && str_eq(t[i].0.1.as_str(), b) {
            proof {
                lemma_key_pos_prefix(tv, i as int + 1, (a@, b@));
            }
            return Some(i);
        }
        i = i + 1;
    }
    assert(tv.take(i as int) =~= tv);
    None
}
/// How many impls target each (type, crate) pair: a table whose count for
/// every pair is the number of impls of that type in that crate.
pub fn build_impl_target_count(impls: &Vec<ImplSite>) -> (r: Vec<((String, String), usize)>)
    ensures
        forall|t: Seq<char>, c: Seq<char>| #[trigger] table_count(counts_view(r@), t, c) == impl_count(impls@, t, c),
{
    let mut r: Vec<((String, String), usize)> = Vec::new();
    let mut i: usize = 0;
    while i < impls.len()
        invariant
            i <= impls@.len(),
            forall|t: Seq<char>, c: Seq<char>| #[trigger]
                table_count(counts_view(r@), t, c) == impl_count(impls@.take(i as int), t, c),
        decreases impls@.len() - i,
    {
        let ghost before = counts_view(r@);
        let ghost pre = impls@.take(i as int);
        proof {
            assert(impls@.take(i + 1).drop_last() =~= pre);
            assert(impls@.take(i + 1).last() == impls@[i as int]);
        }
        let f = &impls[i];
        match (&f.target_type, &f.crate_name) {
            (Some(t0), Some(c0)) => {
                let ghost k0 = (t0@, c0@);
                match pair_pos(&r, t0.as_str(), c0.as_str()) {
                    Some(j) => {
                        proof {
                            lemma_key_pos(before, k0);
                            lemma_impl_count_bounded(pre, t0@, c0@);
                            assert(table_count(before, t0@, c0@) == before[j as int].1);
                        }
                        let n = r[j].1;
                        let kk = (t0.clone(), c0.clone());
                        r.set(j, (kk, n + 1));
                        assert(counts_view(r@) =~= before.update(j as int, (k0, (n + 1) as nat)));
                        assert forall|t: Seq<char>, c: Seq<char>| #[trigger]
                            table_count(counts_view(r@), t, c) == impl_count(impls@.take(i + 1), t, c) by {
                            crate::assoc::lemma_first_value_update(before, j as int, k0, (n + 1) as nat, (t, c));
                            assert(table_count(before, t, c) == impl_count(pre, t, c));
                        }
                    },
                    None => {
                        proof {
                            lemma_key_pos(before, k0);
                        }
                        r.push(((t0.clone(), c0.clone()), 1));
                        assert(counts_view(r@) =~= before.push((k0, 1nat)));
                        assert forall|t: Seq<char>, c: Seq<char>| #[trigger]
                            table_count(counts_view(r@), t, c) == impl_count(impls@.take(i + 1), t, c) by {
                            lemma_first_value_push(before, (k0, 1nat), (t, c));
                            assert(table_count(before, t, c) == impl_count(pre, t, c));
                        }
                    },
                }
            },
            _ => {
                assert forall|t: Seq<char>, c: Seq<char>| #[trigger]
                    table_count(counts_view(r@), t, c) == impl_count(impls@.take(i + 1), t, c) by {
                    assert(table_count(before, t, c) == impl_count(pre, t, c));
                }
            },
        }
        i = i + 1;
    }
    assert(impls@.take(i as int) =~= impls@);
    r
}

/// The (name, crate) pair of a declaration carrying both.
pub open spec fn decl_pair(d: ItemDecl) -> Option<(Seq<char>, Seq<char>)> {
    match (d.name, d.crate_name) {
        (Some(n), Some(c)) => Some((n@, c@)),
        _ => None,
    }
}

/// The declared type names, each once, in first-seen order.
pub open spec fn type_names(ds: Seq<ItemDecl>) -> Seq<Seq<char>>
    decreases ds.len(),
{
    if ds.len() == 0 {
        Seq::empty()
    } else {
        let prev = type_names(ds.drop_last());
        match decl_pair(ds.last()) {
            Some((n, _)) => if prev.contains(n) {
                prev
            } else {
                prev.push(n)
            },
            None => prev,
        }
    }
}

/// The crates declaring a type named `n`, each once, in first-seen order.
pub open spec fn name_crates(ds: Seq<ItemDecl>, n: Seq<char>) -> Seq<Seq<char>>
    decreases ds.len(),
{
    if ds.len() == 0 {
        Seq::empty()
    } else {
        let prev = name_crates(ds.drop_last(), n);
        match decl_pair(ds.last()) {
            Some((m, c)) => if m == n && !prev.contains(c) {
                prev.push(c)
            } else {
                prev
            },
            None => prev,
        }
    }
}

/// The canonical crate among candidates: the first with the most impls of
/// type `t`.
pub open spec fn best_crate(cs: Seq<Seq<char>>, t: Seq<char>, impls: Seq<ImplSite>) -> Seq<char>
    decreases cs.len(),
{
    if cs.len() == 0 {
        Seq::empty()
    } else if cs.len() == 1 {
        cs[0]
    } else {
        let b = best_crate(cs.drop_last(), t, impls);
        if impl_count(impls, t, cs.last()) > impl_count(impls, t, b) {
            cs.last()
        } else {
            b
        }
    }
}

/// The visibility text of the last declaration of `n` in crate `c`; empty
/// when there is none.
pub open spec fn last_vis(ds: Seq<ItemDecl>, n: Seq<char>, c: Seq<char>) -> Seq<char>
    decreases ds.len(),
{
    if ds.len() == 0 {
        Seq::empty()
    } else if decl_pair(ds.last()) == Some((n, c)) {
        text_or_empty(ds.last().visibility)
    } else {
        last_vis(ds.drop_last(), n, c)
    }
}

/// The type lookup: every declared type name, in first-seen order, bound to
/// its canonical declaring crate (the most-implemented candidate, first on
/// ties) with the visibility of that crate's last declaration.
pub open spec fn type_lookup_view(ds: Seq<ItemDecl>, impls: Seq<ImplSite>) -> Seq<(Seq<char>, DefView)> {
    type_names(ds).map_values(
        |n: Seq<char>|
            {
                let c = best_crate(name_crates(ds, n), n, impls);
                (n, DefView { crate_name: c, visibility: last_vis(ds, n, c), macro_exported: false })
            },
    )
}

fn decl_pair_exec(d: &ItemDecl) -> (r: Option<(&String, &String)>)
    ensures
        match r {
            Some((n, c)) => decl_pair(*d) == Some((n@, c@)),
            None => decl_pair(*d) is None,
        },
{
    match (&d.name, &d.crate_name) {
        (Some(n), Some(c)) => Some((n, c)),
        _ => None,
    }
}

fn distinct_type_names(ds: &Vec<ItemDecl>) -> (r: Vec<String>)
    ensures
        strings_view(r@) == type_names(ds@),
{
    let mut r: Vec<String> = Vec::new();
    let mut i: usize = 0;
    while i < ds.len()
        invariant
            i <= ds@.len(),
            strings_view(r@) == type_names(ds@.take(i as int)),
        decreases ds@.len() - i,
    {
        proof {
            assert(ds@.take(i + 1).drop_last() =~= ds@.take(i as int));
        }
        if let Some((n, _)) = decl_pair_exec(&ds[i]) {
            if !strings_contain(&r, n.as_str()) {
                let ghost before = strings_view(r@);
                r.push(n.clone());
                assert(strings_view(r@) =~= before.push(n@));
            }
        }
        i = i + 1;
    }
    assert(ds@.take(i as int) =~= ds@);
    r
}

fn crates_declaring(ds: &Vec<ItemDecl>, name: &str) -> (r: Vec<String>)
    ensures
        strings_view(r@) == name_crates(ds@, name@),
{
    let mut r: Vec<String> = Vec::new();
    let mut i: usize = 0;
    while i < ds.len()
        invariant
            i <= ds@.len(),
            strings_view(r@) == name_crates(ds@.take(i as int), name@),
        decreases ds@.len() - i,
    {
        proof {
            assert(ds@.take(i + 1).drop_last() =~= ds@.take(i as int));
        }
        if let Some((n, c)) = decl_pair_exec(&ds[i]) {
            if str_eq(n.as_str(), name) && !strings_contain(&r, c.as_str()) {
                let ghost before = strings_view(r@);
                r.push(c.clone());
                assert(strings_view(r@) =~= before.push(c@));
            }
        }
        i = i + 1;
    }
    assert(ds@.take(i as int) =~= ds@);
    r
}

fn last_visibility(ds: &Vec<ItemDecl>, name: &str, krate: &str) -> (r: String)
    ensures
        r@ == last_vis(ds@, name@, krate@),
{
    let mut r = String::new();
    let mut i: usize = 0;
    while i < ds.len()
        invariant
            i <= ds@.len(),
            r@ == last_vis(ds@.take(i as int), name@, krate@),
        decreases ds@.len() - i,
    {
        proof {
            assert(ds@.take(i + 1).drop_last() =~= ds@.take(i as int));
        }
        if let Some((n, c)) = decl_pair_exec(&ds[i]) {
            if str_eq(n.as_str(), name) && str_eq(c.as_str(), krate) {
                r = owned_or_empty(&ds[i].visibility);
            }
        }
        i = i + 1;
    }
    assert(ds@.take(i as int) =~= ds@);
    r
}

/// The impl count a table holds for a (type, crate) pair.
fn impl_target_count_of(t: &Vec<((String, String), usize)>, ty: &str, krate: &str) -> (r: usize)
    ensures
        r == table_count(counts_view(t@), ty@, krate@),
{
    match pair_pos(t, ty, krate) {
        Some(j) => {
            proof {
                lemma_key_pos(counts_view(t@), (ty@, krate@));
            }
            t[j].1
        },
        None => {
            proof {
                lemma_key_pos(counts_view(t@), (ty@, krate@));
            }
            0
        },
    }
}

fn choose_crate(cs: &Vec<String>, ty: &str, counts: &Vec<((String, String), usize)>, Ghost(impls): Ghost<Seq<ImplSite>>) -> (r: String)
    requires
        cs@.len() > 0,
        forall|t: Seq<char>, c: Seq<char>| #[trigger] table_count(counts_view(counts@), t, c) == impl_count(impls, t, c),
    ensures
        r@ == best_crate(strings_view(cs@), ty@, impls),
{
    let ghost sv = strings_view(cs@);
    let mut best = cs[0].clone();
    let mut best_count = impl_target_count_of(counts, ty, cs[0].as_str());
    let mut i: usize = 1;
    while i < cs.len()
        invariant
            1 <= i <= cs@.len(),
            sv == strings_view(cs@),
            forall|t: Seq<char>, c: Seq<char>| #[trigger] table_count(counts_view(counts@), t, c) == impl_count(impls, t, c),
            best@ == best_crate(sv.take(i as int), ty@, impls),
            best_count == impl_count(impls, ty@, best@),
        decreases cs@.len() - i,
    {
        proof {
            assert(sv.take(i + 1).drop_last() =~= sv.take(i as int));
            assert(sv.take(i + 1).last() == cs@[i as int]@);
        }
        let n = impl_target_count_of(counts, ty, cs[i].as_str());
        if n > best_count {
            best = cs[i].clone();
            best_count = n;
        }
        i = i + 1;
    }
    assert(sv.take(i as int) =~= sv);
    best
}

/// The type lookup: each declared type name bound to its canonical crate
/// (the candidate with the most impls of the type, the first on ties) and
/// the visibility of that crate's last declaration of it.
pub fn build_type_lookup(types: &Vec<ItemDecl>, impls: &Vec<ImplSite>) -> (r: Vec<(String, PatternDef)>)
    ensures
        defs_view(r@) == type_lookup_view(types@, impls@),
{
    let counts = build_impl_target_count(impls);
    let names = distinct_type_names(types);
    let ghost nv = strings_view(names@);
    let mut r: Vec<(String, PatternDef)> = Vec::new();
    let mut j: usize = 0;
    while j < names.len()
        invariant
            j <= names@.len(),
            nv == strings_view(names@),
            nv == type_names(types@),
            forall|t: Seq<char>, c: Seq<char>| #[trigger] table_count(counts_view(counts@), t, c) == impl_count(impls@, t, c),
            defs_view(r@) == type_lookup_view(types@, impls@).take(j as int),
        decreases names@.len() - j,
    {
        let name = names[j].as_str();
        let cs = crates_declaring(types, name);
        proof {
            assert(nv[j as int] == name@);
            assert(type_names(types@).contains(name@));
            lemma_named_type_declared(types@, name@);
        }
        let c = choose_crate(&cs, name, &counts, Ghost(impls@));
        let vis = last_visibility(types, name, c.as_str());
        let ghost before = defs_view(r@);
        let def = PatternDef { crate_name: c, visibility: vis, macro_exported: false };
        r.push((names[j].clone(), def));
        proof {
            let tl = type_lookup_view(types@, impls@);
            assert(tl[j as int] == (name@, def@));
            assert(tl.take(j + 1) =~= tl.take(j as int).push(tl[j as int]));
        }
        assert(defs_view(r@) =~= type_lookup_view(types@, impls@).take(j + 1));
        j = j + 1;
    }
    assert(type_lookup_view(types@, impls@).take(j as int) =~= type_lookup_view(types@, impls@));
    r
}

proof fn lemma_named_type_declared(ds: Seq<ItemDecl>, n: Seq<char>)
    requires
        type_names(ds).contains(n),
    ensures
        name_crates(ds, n).len() > 0,
    decreases ds.len(),
{
    let prev = type_names(ds.drop_last());
    if prev.contains(n) {
        lemma_named_type_declared(ds.drop_last(), n);
        lemma_name_crates_grow(ds, n);
    } else {
        assert(type_names(ds).last() == n || type_names(ds) == prev);
    }
}

proof fn lemma_name_crates_grow(ds: Seq<ItemDecl>, n: Seq<char>)
    requires
        ds.len() > 0,
    ensures
        name_crates(ds.drop_last(), n).len() <= name_crates(ds, n).len(),
{
}

/// The crate-namespace lookup: every crate name seen in the facts, in
/// ascending order and once each, declared by itself as `pub`.
pub fn build_crate_name_lookup(crate_names: &Vec<String>) -> (r: Vec<(String, PatternDef)>)
    ensures
        strictly_sorted_strings(defs_view(r@).map_values(|p: (Seq<char>, DefView)| p.0)),
        defs_view(r@).map_values(|p: (Seq<char>, DefView)| p.0).to_set() == strings_view(crate_names@).to_set(),
        forall|i: int| 0 <= i < r@.len() ==> (#[trigger] defs_view(r@)[i]).1 == (DefView {
            crate_name: defs_view(r@)[i].0,
            visibility: "pub"@,
            macro_exported: false,
        }),
{
    proof {
        reveal_strlit("pub");
    }
    let sorted = sort_strings(crate_names);
    let names = dedup_sorted_strings(&sorted);
    let ghost nv = strings_view(names@);
    let mut r: Vec<(String, PatternDef)> = Vec::new();
    let mut i: usize = 0;
    while i < names.len()
        invariant
            i <= names@.len(),
            nv == strings_view(names@),
            defs_view(r@).map_values(|p: (Seq<char>, DefView)| p.0) == nv.take(i as int),
            forall|k: int| 0 <= k < r@.len() ==> (#[trigger] defs_view(r@)[k]).1 == (DefView {
                crate_name: defs_view(r@)[k].0,
                visibility: "pub"@,
                macro_exported: false,
            }),
        decreases names@.len() - i,
    {
        let ghost before = defs_view(r@);
        let def = PatternDef { crate_name: names[i].clone(), visibility: "pub".to_string(), macro_exported: false };
        r.push((names[i].clone(), def));
        assert(defs_view(r@) =~= before.push((nv[i as int], def@)));
        assert(defs_view(r@).map_values(|p: (Seq<char>, DefView)| p.0) =~= before.map_values(
            |p: (Seq<char>, DefView)| p.0,
        ).push(nv[i as int]));
        assert(nv.take(i + 1) =~= nv.take(i as int).push(nv[i as int]));
        i = i + 1;
    }
    assert(nv.take(i as int) =~= nv);
    proof {
        lemma_same_set_through_sort(strings_view(sorted@), strings_view(crate_names@));
    }
    r
}

proof fn lemma_same_set_through_sort(a: Seq<Seq<char>>, b: Seq<Seq<char>>)
    requires
        a.to_multiset() == b.to_multiset(),
    ensures
        a.to_set() == b.to_set(),
{
    assert forall|x: Seq<char>| a.to_set().contains(x) <==> b.to_set().contains(x) by {
        vstd::seq_lib::to_multiset_contains(a, x);
        vstd::seq_lib::to_multiset_contains(b, x);
    }
    assert(a.to_set() =~= b.to_set());
}

/// Which lookup attributed a pattern to its declaring crate.
#[derive(Debug, Clone, Copy, PartialEq, Eq, Structural)]
pub enum DefSource {
    TypeDef,
    TraitDef,
    MacroDef,
    Mod,
    CrateName,
}

/// The declaration lookups a pattern's defining crate is read from.
#[derive(Debug, Clone)]
pub struct DefLookups {
    pub types: Vec<(String, PatternDef)>,
    pub traits: Vec<(String, PatternDef)>,
    pub macros: Vec<(String, PatternDef)>,
    pub mods: Vec<(String, PatternDef)>,
    pub crate_names: Vec<(String, PatternDef)>,
}

/// The outer segment of a pattern name: the part before the first `::`.
pub open spec fn outer_of(inner: Seq<char>) -> Seq<char> {
    before_first(inner, "::"@)
}

/// The declaration of a `kind:inner` pattern: trait impls and derives by the
/// trait lookup; type usages by their outer segment through the type, then
/// module, then crate-name lookup; macros by the macro lookup.
pub open spec fn pattern_def_view(kind: Seq<char>, inner: Seq<char>, l: DefLookups) -> Option<(DefView, DefSource)> {
    if kind == "trait_impl"@ || kind == "derive"@ {
        match first_value(defs_view(l.traits@), inner) {
            Some(d) => Some((d, DefSource::TraitDef)),
            None => None,
        }
    } else if kind == "type_usage"@ {
        let outer = outer_of(inner);
        match first_value(defs_view(l.types@), outer) {
            Some(d) => Some((d, DefSource::TypeDef)),
            None => match first_value(defs_view(l.mods@), outer) {
                Some(d) => Some((d, DefSource::Mod)),
                None => match first_value(defs_view(l.crate_names@), outer) {
                    Some(d) => Some((d, DefSource::CrateName)),
                    None => None,
                },
            },
        }
    } else if kind == "reg_macro"@ || kind == "attr_macro"@ {
        match first_value(defs_view(l.macros@), inner) {
            Some(d) => Some((d, DefSource::MacroDef)),
            None => None,
        }
    } else {
        None
    }
}

fn lookup_def(t: &Vec<(String, PatternDef)>, name: &str) -> (r: Option<PatternDef>)
    ensures
        match r {
            Some(d) => first_value(defs_view(t@), name@) == Some(d@),
            None => first_value(defs_view(t@), name@) is None,
        },
{
    let ghost tv = defs_view(t@);
    let mut i: usize = 0;
    while i < t.len()
        invariant
            i <= t@.len(),
            tv == defs_view(t@),
            first_value(tv.take(i as int), name@) is None,
        decreases t@.len() - i,
    {
        proof {
            crate::assoc::lemma_first_value_step(tv, i as int, name@);
        }
        if str_eq(t[i].0.as_str(), name) {
            proof {
                crate::assoc::lemma_first_value_prefix(tv, i + 1, name@);
            }
            let d = PatternDef {
                crate_name: t[i].1.crate_name.clone(),
                visibility: t[i].1.visibility.clone(),
                macro_exported: t[i].1.macro_exported,
            };
            return Some(d);
        }
        i = i + 1;
    }
    assert(tv.take(i as int) =~= tv);
    None
}

/// The outer segment of a name: the part before its first `::`.
pub fn outer_segment(inner: &str) -> (r: String)
    ensures
        r@ == outer_of(inner@),
{
    proof {
        reveal_strlit("::");
    }
    let cs = chars_of(inner);
    let sep = chars_of("::");
    let o = before_first_exec(&cs, &sep);
    string_of(&o)
}

/// Attributes a `kind:inner` pattern to its declaration and says which
/// lookup found it.
pub fn pattern_def(kind: &str, inner: &str, lookups: &DefLookups) -> (r: Option<(PatternDef, DefSource)>)
    ensures
        match r {
            Some((d, src)) => pattern_def_view(kind@, inner@, *lookups) == Some((d@, src)),
            None => pattern_def_view(kind@, inner@, *lookups) is None,
        },
{
    if str_eq(kind, "trait_impl") || str_eq(kind, "derive") {
        match lookup_def(&lookups.traits, inner) {
            Some(d) => Some((d, DefSource::TraitDef)),
            None => None,
        }
    } else if str_eq(kind, "type_usage") {
        let outer = outer_segment(inner);
        match lookup_def(&lookups.types, outer.as_str()) {
            Some(d) => Some((d, DefSource::TypeDef)),
            None => match lookup_def(&lookups.mods, outer.as_str()) {
                Some(d) => Some((d, DefSource::Mod)),
                None => match lookup_def(&lookups.crate_names, outer.as_str()) {
                    Some(d) => Some((d, DefSource::CrateName)),
                    None => None,
                },
            },
        }
    } else if str_eq(kind, "reg_macro") || str_eq(kind, "attr_macro") {
        match lookup_def(&lookups.macros, inner) {
            Some(d) => Some((d, DefSource::MacroDef)),
            None => None,
        }
    } else {
        None
    }
}

/// One usage fact a pattern's sites are read from: the trait (impls and
/// derives), the name and kind (macros, type usages), whether the impl is
/// `cfg`-gated, and the using crate, file and written path qualifier.
#[derive(Debug, Clone)]
pub struct PatternFact {
    pub trait_name: Option<String>,
    pub name: Option<String>,
    pub kind: Option<String>,
    pub cfg_gated: bool,
    pub crate_name: Option<String>,
    pub file: Option<String>,
    pub qualifier: Option<String>,
}

/// Whether a fact is a site of the `kind:inner` pattern: a non-gated impl of
/// the trait, a derive of it, a usage of the name, or a registration /
/// attribute macro of the name.
pub open spec fn fact_matches(kind: Seq<char>, inner: Seq<char>, f: PatternFact) -> bool {
    if kind == "trait_impl"@ {
        opt_view(f.trait_name) == Some(inner) && !f.cfg_gated
    } else if kind == "derive"@ {
        opt_view(f.trait_name) == Some(inner)
    } else if kind == "type_usage"@ {
        opt_view(f.name) == Some(inner)
    } else if kind == "reg_macro"@ {
        opt_view(f.kind) == Some("macro_invocation"@) && opt_view(f.name) == Some(inner)
    } else if kind == "attr_macro"@ {
        opt_view(f.kind) == Some("attr_macro"@) && opt_view(f.name) == Some(inner)
    } else {
        false
    }
}

pub(crate) fn opt_is(o: &Option<String>, x: &str) -> (r: bool)
    ensures
        r == (opt_view(*o) == Some(x@)),
{
    match o {
        Some(s) => str_eq(s.as_str(), x),
        None => false,
    }
}

/// Whether `fact` is a site of the `kind:inner` pattern.
pub fn pattern_match(kind: &str, inner: &str, fact: &PatternFact) -> (r: bool)
    ensures
        r == fact_matches(kind@, inner@, *fact),
{
    if str_eq(kind, "trait_impl") {
        opt_is(&fact.trait_name, inner) && !fact.cfg_gated
    } else if str_eq(kind, "derive") {
        opt_is(&fact.trait_name, inner)
    } else if str_eq(kind, "type_usage") {
        opt_is(&fact.name, inner)
    } else if str_eq(kind, "reg_macro") {
        opt_is(&fact.kind, "macro_invocation") && opt_is(&fact.name, inner)
    } else if str_eq(kind, "attr_macro") {
        opt_is(&fact.kind, "attr_macro") && opt_is(&fact.name, inner)
    } else {
        false
    }
}

/// The distinct example-directory files (slashes normalized) among the
/// sites of `kind:inner`, in first-seen order.
pub open spec fn example_files(kind: Seq<char>, inner: Seq<char>, facts: Seq<PatternFact>) -> Seq<Seq<char>>
    decreases facts.len(),
{
    if facts.len() == 0 {
        Seq::empty()
    } else {
        let prev = example_files(kind, inner, facts.drop_last());
        let f = facts.last();
        match f.file {
            Some(file) => {
                let norm = forward_slashes(file@);
                if fact_matches(kind, inner, f) && in_examples(norm) && !prev.contains(norm) {
                    prev.push(norm)
                } else {
                    prev
                }
            },
            None => prev,
        }
    }
}

proof fn lemma_example_files_bounded(kind: Seq<char>, inner: Seq<char>, facts: Seq<PatternFact>)
    ensures
        example_files(kind, inner, facts).len() <= facts.len(),
    decreases facts.len(),
{
    if facts.len() > 0 {
        lemma_example_files_bounded(kind, inner, facts.drop_last());
    }
}

/// The number of distinct example-directory files among the sites of
/// `kind:inner`; zero for type usages, whose example evidence is counted
/// apart.
pub fn example_file_count(kind: &str, inner: &str, source: &Vec<PatternFact>) -> (r: usize)
    ensures
        r == (if kind@ == "type_usage"@ {
            0
        } else {
            example_files(kind@, inner@, source@).len()
        }),
{
    if str_eq(kind, "type_usage") {
        return 0;
    }
    let mut files: Vec<String> = Vec::new();
    let mut i: usize = 0;
    while i < source.len()
        invariant
            i <= source@.len(),
            strings_view(files@) == example_files(kind@, inner@, source@.take(i as int)),
        decreases source@.len() - i,
    {
        proof {
            assert(source@.take(i + 1).drop_last() =~= source@.take(i as int));
        }
        let f = &source[i];
        if let Some(file) = &f.file {
            let norm = string_of(&forward_slashes_exec(file.as_str()));
            if pattern_match(kind, inner, f) && in_examples_exec(norm.as_str()) && !strings_contain(&files, norm.as_str()) {
                let ghost before = strings_view(files@);
                files.push(norm);
                assert(strings_view(files@) =~= before.push(forward_slashes(file@)));
            }
        }
        i = i + 1;
    }
    assert(source@.take(i as int) =~= source@);
    proof {
        lemma_example_files_bounded(kind@, inner@, source@);
    }
    files.len()
}

/// Everything origin resolution reads: the per-file import surface, the
/// crate vocabulary, the local declaration and module name sets, and the
/// facade index.
#[derive(Debug, Clone)]
pub struct SiteContext {
    pub import_maps: ImportMaps,
    pub vocab: ResolveVocab,
    pub local_decl_crates: NameSets,
    pub local_mod_crates: NameSets,
    pub facades: FacadeIndex,
}

/// The origin of a fact's site, resolving `target` in the fact's file as
/// seen from crate `using`.
pub open spec fn fact_origin(f: PatternFact, target: Seq<char>, using: Seq<char>, ctx: SiteContext) -> OriginView {
    site_origin(
        text_or_empty(f.file),
        target,
        opt_view(f.qualifier),
        using,
        ctx.import_maps@,
        ctx.vocab@,
        ctx.local_decl_crates@,
        ctx.local_mod_crates@,
    )
}

/// Whether a fact's site credits a pattern declared in `defining`.
pub open spec fn fact_credits(f: PatternFact, target: Seq<char>, using: Seq<char>, defining: Seq<char>, ctx: SiteContext) -> bool {
    credits_view(
        fact_origin(f, target, using, ctx),
        using,
        defining,
        target,
        ctx.facades.leaf_reexports@,
        ctx.facades.ns_closure@,
    )
}

/// The credited sites of `kind:inner` declared in `defining`: a matching
/// fact with a non-empty using crate whose site resolves to (or through a
/// facade of) the declaring crate is an example file when it lies in an
/// examples directory, else an intra-crate site when used in the declaring
/// crate and an inter-crate site otherwise. Gives (intra, inter, distinct
/// example files in first-seen order).
pub open spec fn site_fold(
    kind: Seq<char>,
    inner: Seq<char>,
    facts: Seq<PatternFact>,
    defining: Seq<char>,
    target: Seq<char>,
    ctx: SiteContext,
) -> (nat, nat, Seq<Seq<char>>)
    decreases facts.len(),
{
    if facts.len() == 0 {
        (0, 0, Seq::empty())
    } else {
        let prev = site_fold(kind, inner, facts.drop_last(), defining, target, ctx);
        let f = facts.last();
        match opt_view(f.crate_name) {
            Some(using) => if !fact_matches(kind, inner, f) || using.len() == 0 || !fact_credits(
                f,
                target,
                using,
                defining,
                ctx,
            ) {
                prev
            } else {
                let norm = forward_slashes(text_or_empty(f.file));
                if in_examples(norm) {
                    (prev.0, prev.1, if prev.2.contains(norm) {
                        prev.2
                    } else {
                        prev.2.push(norm)
                    })
                } else if using == defining {
                    (prev.0 + 1, prev.1, prev.2)
                } else {
                    (prev.0, prev.1 + 1, prev.2)
                }
            },
            None => prev,
        }
    }
}

proof fn lemma_site_fold_bounded(
    kind: Seq<char>,
    inner: Seq<char>,
    facts: Seq<PatternFact>,
    defining: Seq<char>,
    target: Seq<char>,
    ctx: SiteContext,
)
    ensures
        site_fold(kind, inner, facts, defining, target, ctx).0 + site_fold(kind, inner, facts, defining, target, ctx).1
            + site_fold(kind, inner, facts, defining, target, ctx).2.len() <= facts.len(),
    decreases facts.len(),
{
    if facts.len() > 0 {
        lemma_site_fold_bounded(kind, inner, facts.drop_last(), defining, target, ctx);
    }
}

/// Counts the credited sites of `kind:inner` declared in `defining_crate`,
/// resolving `target` at each site: (intra-crate sites, inter-crate sites,
/// the distinct example files).
pub fn count_pattern_sites(
    kind: &str,
    inner: &str,
    source: &Vec<PatternFact>,
    defining_crate: &str,
    target: &str,
    ctx: &SiteContext,
) -> (r: (usize, usize, Vec<String>))
    ensures
        ({
            let v = site_fold(kind@, inner@, source@, defining_crate@, target@, *ctx);
            r.0 == v.0 && r.1 == v.1 && strings_view(r.2@) == v.2
        }),
{
    let mut intra: usize = 0;
    let mut inter: usize = 0;
    let mut files: Vec<String> = Vec::new();
    let mut i: usize = 0;
    while i < source.len()
        invariant
            i <= source@.len(),
            ({
                let v = site_fold(kind@, inner@, source@.take(i as int), defining_crate@, target@, *ctx);
                intra == v.0 && inter == v.1 && strings_view(files@) == v.2
            }),
        decreases source@.len() - i,
    {
        proof {
            assert(source@.take(i + 1).drop_last() =~= source@.take(i as int));
            assert(source@.take(i + 1).last() == source@[i as int]);
            lemma_site_fold_bounded(kind@, inner@, source@.take(i + 1), defining_crate@, target@, *ctx);
        }
        let f = &source[i];
        if let Some(using) = &f.crate_name {
            if pattern_match(kind, inner, f) && !using.as_str().is_empty() {
                let file = owned_or_empty(&f.file);
                let q: Option<&str> = match &f.qualifier {
                    Some(q) => Some(q.as_str()),
                    None => None,
                };
                let origin = resolve_site_origin(
                    file.as_str(),
                    target,
                    q,
                    using.as_str(),
                    &ctx.import_maps,
                    &ctx.vocab,
                    &ctx.local_decl_crates,
                    &ctx.local_mod_crates,
                );
                if site_credits(&origin, using.as_str(), defining_crate, target, &ctx.facades) {
                    let norm = string_of(&forward_slashes_exec(file.as_str()));
                    if in_examples_exec(norm.as_str()) {
                        if !strings_contain(&files, norm.as_str()) {
                            let ghost before = strings_view(files@);
                            files.push(norm);
                            assert(strings_view(files@) =~= before.push(forward_slashes(text_or_empty(f.file))));
                        }
                    } else if str_eq(using.as_str(), defining_crate) {
                        intra = intra + 1;
                    } else {
                        inter = inter + 1;
                    }
                }
            }
        }
        i = i + 1;
    }
    assert(source@.take(i as int) =~= source@);
    (intra, inter, files)
}

/// Whether an example usage is evidence of a workspace pattern: its outer
/// name, resolved in its file from its crate, is neither std nor external.
pub open spec fn example_gated(f: PatternFact, ctx: SiteContext) -> bool {
    let o = fact_origin(f, outer_of(text_or_empty(f.name)), text_or_empty(f.crate_name), ctx);
    !(o is Std) && !(o is External)
}

/// The example usages that are evidence of workspace patterns, in order.
pub open spec fn gated_usages(us: Seq<PatternFact>, ctx: SiteContext) -> Seq<PatternFact>
    decreases us.len(),
{
    if us.len() == 0 {
        Seq::empty()
    } else if example_gated(us.last(), ctx) {
        gated_usages(us.drop_last(), ctx).push(us.last())
    } else {
        gated_usages(us.drop_last(), ctx)
    }
}

fn copy_fact(f: &PatternFact) -> (r: PatternFact)
    ensures
        r == *f,
{
    PatternFact {
        trait_name: clone_opt(&f.trait_name),
        name: clone_opt(&f.name),
        kind: clone_opt(&f.kind),
        cfg_gated: f.cfg_gated,
        crate_name: clone_opt(&f.crate_name),
        file: clone_opt(&f.file),
        qualifier: clone_opt(&f.qualifier),
    }
}

/// The example usages whose outer name resolves to neither std nor an
/// external crate: the usages that count as example evidence.
pub fn gate_example_usages(usages: &Vec<PatternFact>, ctx: &SiteContext) -> (r: Vec<PatternFact>)
    ensures
        r@ == gated_usages(usages@, *ctx),
{
    let mut r: Vec<PatternFact> = Vec::new();
    let mut i: usize = 0;
    while i < usages.len()
        invariant
            i <= usages@.len(),
            r@ == gated_usages(usages@.take(i as int), *ctx),
        decreases usages@.len() - i,
    {
        proof {
            assert(usages@.take(i + 1).drop_last() =~= usages@.take(i as int));
            assert(usages@.take(i + 1).last() == usages@[i as int]);
        }
        let f = &usages[i];
        let name = owned_or_empty(&f.name);
        let outer = outer_segment(name.as_str());
        let file = owned_or_empty(&f.file);
        let using = owned_or_empty(&f.crate_name);
        let q: Option<&str> = match &f.qualifier {
            Some(q) => Some(q.as_str()),
            None => None,
        };
        let origin = resolve_site_origin(
            file.as_str(),
            outer.as_str(),
            q,
            using.as_str(),
            &ctx.import_maps,
            &ctx.vocab,
            &ctx.local_decl_crates,
            &ctx.local_mod_crates,
        );
        let keep = match origin {
            IdentOrigin::Std => false,
            IdentOrigin::External => false,
            _ => true,
        };
        if keep {
            r.push(copy_fact(f));
        }
        i = i + 1;
    }
    assert(usages@.take(i as int) =~= usages@);
    r
}

/// The (name, file) of an example usage carrying a non-empty name and file.
pub open spec fn named_file(f: PatternFact) -> Option<(Seq<char>, Seq<char>)> {
    let n = text_or_empty(f.name);
    let file = text_or_empty(f.file);
    if n.len() == 0 || file.len() == 0 {
        None
    } else {
        Some((n, file))
    }
}

/// The names of the example usages, each once, in first-seen order.
pub open spec fn example_names(us: Seq<PatternFact>) -> Seq<Seq<char>>
    decreases us.len(),
{
    if us.len() == 0 {
        Seq::empty()
    } else {
        let prev = example_names(us.drop_last());
        match named_file(us.last()) {
            Some((n, _)) => if prev.contains(n) {
                prev
            } else {
                prev.push(n)
            },
            None => prev,
        }
    }
}

/// The evidence category of a file: examples (0), tests (1), benches (2),
/// or none (3).
pub open spec fn evidence_category(f: Seq<char>) -> int {
    if in_examples(f) {
        0
    } else if in_tests(f) {
        1
    } else if in_benches(f) {
        2
    } else {
        3
    }
}

/// The distinct files of category `cat` among the usages named `n`, in
/// first-seen order.
pub open spec fn category_files(us: Seq<PatternFact>, n: Seq<char>, cat: int) -> Seq<Seq<char>>
    decreases us.len(),
{
    if us.len() == 0 {
        Seq::empty()
    } else {
        let prev = category_files(us.drop_last(), n, cat);
        match named_file(us.last()) {
            Some((m, file)) => if m == n && evidence_category(file) == cat && !prev.contains(file) {
                prev.push(file)
            } else {
                prev
            },
            None => prev,
        }
    }
}

/// Per example name: the number of distinct example, test and bench files
/// naming it.
pub open spec fn example_counts_view(us: Seq<PatternFact>) -> Seq<(Seq<char>, (nat, nat, nat))> {
    example_names(us).map_values(
        |n: Seq<char>|
            (n, (category_files(us, n, 0).len(), category_files(us, n, 1).len(), category_files(us, n, 2).len())),
    )
}

/// The value of a per-name count table.
pub open spec fn triples_view(s: Seq<(String, (usize, usize, usize))>) -> Seq<(Seq<char>, (nat, nat, nat))> {
    s.map_values(|p: (String, (usize, usize, usize))| (p.0@, (p.1.0 as nat, p.1.1 as nat, p.1.2 as nat)))
}

proof fn lemma_category_files_bounded(us: Seq<PatternFact>, n: Seq<char>, cat: int)
    ensures
        category_files(us, n, cat).len() <= us.len(),
    decreases us.len(),
{
    if us.len() > 0 {
        lemma_category_files_bounded(us.drop_last(), n, cat);
    }
}

fn named_file_exec(f: &PatternFact) -> (r: Option<(String, String)>)
    ensures
        match r {
            Some((n, file)) => named_file(*f) == Some((n@, file@)),
            None => named_file(*f) is None,
        },
{
    let n = owned_or_empty(&f.name);
    let file = owned_or_empty(&f.file);
    if n.as_str().is_empty() || file.as_str().is_empty() {
        None
    } else {
        Some((n, file))
    }
}

fn evidence_category_exec(f: &str) -> (r: u8)
    ensures
        r as int == evidence_category(f@),
{
    proof {
        reveal_strlit("/tests/");
        reveal_strlit("tests/");
        reveal_strlit("/benches/");
        reveal_strlit("benches/");
    }
    if in_examples_exec(f) {
        0
    } else if str_contains(f, "/tests/") || str_starts_with(f, "tests/") {
        1
    } else if str_contains(f, "/benches/") || str_starts_with(f, "benches/") {
        2
    } else {
        3
    }
}

fn example_name_list(us: &Vec<PatternFact>) -> (r: Vec<String>)
    ensures
        strings_view(r@) == example_names(us@),
{
    let mut r: Vec<String> = Vec::new();
    let mut i: usize = 0;
    while i < us.len()
        invariant
            i <= us@.len(),
            strings_view(r@) == example_names(us@.take(i as int)),
        decreases us@.len() - i,
    {
        proof {
            assert(us@.take(i + 1).drop_last() =~= us@.take(i as int));
            assert(us@.take(i + 1).last() == us@[i as int]);
        }
        if let Some((n, _)) = named_file_exec(&us[i]) {
            if !strings_contain(&r, n.as_str()) {
                let ghost before = strings_view(r@);
                r.push(n);
                assert(strings_view(r@) =~= before.push(n@));
            }
        }
        i = i + 1;
    }
    assert(us@.take(i as int) =~= us@);
    r
}

fn count_category(us: &Vec<PatternFact>, name: &str, cat: u8) -> (r: usize)
    ensures
        r == category_files(us@, name@, cat as int).len(),
{
    let mut files: Vec<String> = Vec::new();
    let mut i: usize = 0;
    while i < us.len()
        invariant
            i <= us@.len(),
            strings_view(files@) == category_files(us@.take(i as int), name@, cat as int),
        decreases us@.len() - i,
    {
        proof {
            assert(us@.take(i + 1).drop_last() =~= us@.take(i as int));
            assert(us@.take(i + 1).last() == us@[i as int]);
        }
        if let Some((n, file)) = named_file_exec(&us[i]) {
            if str_eq(n.as_str(), name) && evidence_category_exec(file.as_str()) == cat && !strings_contain(
                &files,
                file.as_str(),
            ) {
                let ghost before = strings_view(files@);
                files.push(file);
                assert(strings_view(files@) =~= before.push(files@.last()@));
            }
        }
        i = i + 1;
    }
    assert(us@.take(i as int) =~= us@);
    proof {
        lemma_category_files_bounded(us@, name@, cat as int);
    }
    files.len()
}

/// The example evidence per used name, from the gated example usages: for
/// each name (first-seen order) the number of distinct files naming it in
/// examples, tests and benches directories. The examples count is the
/// curated example count; the program weighs the three into the example
/// count.
pub fn compute_example_counts(usages: &Vec<PatternFact>) -> (r: Vec<(String, (usize, usize, usize))>)
    ensures
        triples_view(r@) == example_counts_view(usages@),
{
    let names = example_name_list(usages);
    let ghost nv = strings_view(names@);
    let mut r: Vec<(String, (usize, usize, usize))> = Vec::new();
    let mut j: usize = 0;
    while j < names.len()
        invariant
            j <= names@.len(),
            nv == strings_view(names@),
            nv == example_names(usages@),
            triples_view(r@) == example_counts_view(usages@).take(j as int),
        decreases names@.len() - j,
    {
        let n = names[j].as_str();
        let e = count_category(usages, n, 0);
        let t = count_category(usages, n, 1);
        let b = count_category(usages, n, 2);
        r.push((names[j].clone(), (e, t, b)));
        proof {
            let ev = example_counts_view(usages@);
            assert(nv[j as int] == n@);
            assert(ev.take(j + 1) =~= ev.take(j as int).push(ev[j as int]));
        }
        assert(triples_view(r@) =~= example_counts_view(usages@).take(j + 1));
        j = j + 1;
    }
    assert(example_counts_view(usages@).take(j as int) =~= example_counts_view(usages@));
    r
}

/// The example, test and bench file counts recorded for a name; zeros
/// when none are.
pub open spec fn counts_for(inner: Seq<char>, counts: Seq<(Seq<char>, (nat, nat, nat))>) -> (nat, nat, nat) {
    match first_value(counts, inner) {
        Some(c) => c,
        None => (0, 0, 0),
    }
}

/// The curated example count of a `kind:inner` pattern: for type usages,
/// the examples count recorded for the name; zero otherwise.
pub open spec fn curated_of(kind: Seq<char>, inner: Seq<char>, counts: Seq<(Seq<char>, (nat, nat, nat))>) -> nat {
    if kind != "type_usage"@ {
        0
    } else {
        counts_for(inner, counts).0
    }
}

/// The example, test and bench file counts recorded for a name.
pub fn example_counts_for(inner: &str, counts: &Vec<(String, (usize, usize, usize))>) -> (r: (usize, usize, usize))
    ensures
        (r.0 as nat, r.1 as nat, r.2 as nat) == counts_for(inner@, triples_view(counts@)),
{
    let ghost cv = triples_view(counts@);
    let mut i: usize = 0;
    while i < counts.len()
        invariant
            i <= counts@.len(),
            cv == triples_view(counts@),
            first_value(cv.take(i as int), inner@) is None,
        decreases counts@.len() - i,
    {
        proof {
            crate::assoc::lemma_first_value_step(cv, i as int, inner@);
        }
        if str_eq(counts[i].0.as_str(), inner) {
            proof {
                assert(cv[i as int].0 == inner@);
                crate::assoc::lemma_first_value_prefix(cv, i + 1, inner@);
            }
            return counts[i].1;
        }
        i = i + 1;
    }
    assert(cv.take(i as int) =~= cv);
    (0, 0, 0)
}

/// The curated example count of a `kind:inner` pattern from the per-name
/// example counts.
pub fn curated_example_count(kind: &str, inner: &str, counts: &Vec<(String, (usize, usize, usize))>) -> (r: usize)
    ensures
        r == curated_of(kind@, inner@, triples_view(counts@)),
{
    if !str_eq(kind, "type_usage") {
        return 0;
    }
    example_counts_for(inner, counts).0
}

/// The usage facts a workspace's kind-keyed patterns are read from: trait
/// impls, derives, type usages and macros, plus the type usages seen in
/// example directories.
#[derive(Debug, Clone)]
pub struct KindSources {
    pub impls: Vec<PatternFact>,
    pub derives: Vec<PatternFact>,
    pub type_usages: Vec<PatternFact>,
    pub macros: Vec<PatternFact>,
    pub example_type_usages: Vec<PatternFact>,
}

/// The pattern name a fact contributes under `kind`: the trait of a
/// non-gated impl or of a derive, the name of a type usage, the name of a
/// registration or attribute macro of that kind.
pub open spec fn inner_of(kind: Seq<char>, f: PatternFact) -> Option<Seq<char>> {
    if kind == "trait_impl"@ {
        if f.cfg_gated {
            None
        } else {
            opt_view(f.trait_name)
        }
    } else if kind == "derive"@ {
        opt_view(f.trait_name)
    } else if kind == "type_usage"@ {
        opt_view(f.name)
    } else if kind == "reg_macro"@ {
        if opt_view(f.kind) == Some("macro_invocation"@) {
            opt_view(f.name)
        } else {
            None
        }
    } else if kind == "attr_macro"@ {
        if opt_view(f.kind) == Some("attr_macro"@) {
            opt_view(f.name)
        } else {
            None
        }
    } else {
        None
    }
}

/// The (kind, name) patterns after reading `facts` under `kind`, each once,
/// in first-seen order.
pub open spec fn add_seen(prev: Seq<(Seq<char>, Seq<char>)>, kind: Seq<char>, facts: Seq<PatternFact>) -> Seq<
    (Seq<char>, Seq<char>),
>
    decreases facts.len(),
{
    if facts.len() == 0 {
        prev
    } else {
        let p = add_seen(prev, kind, facts.drop_last());
        match inner_of(kind, facts.last()) {
            Some(x) => if p.contains((kind, x)) {
                p
            } else {
                p.push((kind, x))
            },
            None => p,
        }
    }
}

/// Every pattern the workspace's facts name: trait impls, derives, type
/// usages, registration macros, attribute macros, then example type usages.
pub open spec fn seen_patterns(src: KindSources) -> Seq<(Seq<char>, Seq<char>)> {
    let a = add_seen(Seq::empty(), "trait_impl"@, src.impls@);
    let b = add_seen(a, "derive"@, src.derives@);
    let c = add_seen(b, "type_usage"@, src.type_usages@);
    let d = add_seen(c, "reg_macro"@, src.macros@);
    let e = add_seen(d, "attr_macro"@, src.macros@);
    add_seen(e, "type_usage"@, src.example_type_usages@)
}

/// The facts a kind's sites are read from.
pub open spec fn kind_source(kind: Seq<char>, src: KindSources) -> Seq<PatternFact> {
    if kind == "trait_impl"@ {
        src.impls@
    } else if kind == "derive"@ {
        src.derives@
    } else if kind == "type_usage"@ {
        src.type_usages@
    } else if kind == "reg_macro"@ || kind == "attr_macro"@ {
        src.macros@
    } else {
        Seq::empty()
    }
}

/// The key of a kind-keyed pattern: `kind:inner`.
pub open spec fn kind_key(kind: Seq<char>, inner: Seq<char>) -> Seq<char> {
    kind + ":"@ + inner
}

/// The metrics row of `kind:inner`, none when the key carries a skip
/// substring. Without a declaration: no defining crate, no counts, not
/// public, and the example files as curated evidence (type usages: the
/// recorded example count). With one: the declaring crate, its public flag
/// (a `pub` visibility or an exported macro), and the credited intra / inter
/// sites of the pattern (type usages resolve their outer segment); the
/// curated count is the credited example files (type usages: the recorded
/// count). The example evidence is the curated files at weight one, except
/// for type usages, which carry their recorded example, test and bench file
/// counts. A type usage attributed only through a module or crate name with
/// no credited site is no pattern.
pub open spec fn kind_row(
    kind: Seq<char>,
    inner: Seq<char>,
    src: KindSources,
    l: DefLookups,
    ctx: SiteContext,
    counts: Seq<(Seq<char>, (nat, nat, nat))>,
    skips: Seq<String>,
) -> Option<MetricView> {
    let source = kind_source(kind, src);
    let tu = kind == "type_usage"@;
    let ex_files: nat = if tu {
        0
    } else {
        example_files(kind, inner, source).len()
    };
    let curated = if tu {
        curated_of(kind, inner, counts)
    } else {
        ex_files
    };
    let tu_evidence = counts_for(inner, counts);
    if matches_any_substring(kind_key(kind, inner), skips) {
        None
    } else {
        match pattern_def_view(kind, inner, l) {
            None => Some(
                MetricView {
                    defining_crate: None,
                    intra: 0,
                    inter: 0,
                    is_pub: false,
                    curated,
                    sub_form: None,
                    evidence: if tu {
                        tu_evidence
                    } else {
                        (ex_files, 0, 0)
                    },
                },
            ),
            Some((d, from)) => {
                let target = if tu {
                    outer_of(inner)
                } else {
                    inner
                };
                let v = site_fold(kind, inner, source, d.crate_name, target, ctx);
                if tu && (from == DefSource::Mod || from == DefSource::CrateName) && v.0 + v.1 == 0 {
                    None
                } else {
                    Some(
                        MetricView {
                            defining_crate: Some(d.crate_name),
                            intra: v.0,
                            inter: v.1,
                            is_pub: starts_with(d.visibility, "pub"@) || d.macro_exported,
                            curated: if tu {
                                curated
                            } else {
                                v.2.len()
                            },
                            sub_form: None,
                            evidence: if tu {
                                tu_evidence
                            } else {
                                (v.2.len(), 0, 0)
                            },
                        },
                    )
                }
            },
        }
    }
}

/// The rows of the seen patterns, keyed `kind:inner`, in order.
pub open spec fn kind_rows(
    seen: Seq<(Seq<char>, Seq<char>)>,
    src: KindSources,
    l: DefLookups,
    ctx: SiteContext,
    counts: Seq<(Seq<char>, (nat, nat, nat))>,
    skips: Seq<String>,
) -> Seq<(Seq<char>, MetricView)>
    decreases seen.len(),
{
    if seen.len() == 0 {
        Seq::empty()
    } else {
        let prev = kind_rows(seen.drop_last(), src, l, ctx, counts, skips);
        let (k, x) = seen.last();
        match kind_row(k, x, src, l, ctx, counts, skips) {
            Some(m) => prev.push((kind_key(k, x), m)),
            None => prev,
        }
    }
}

/// The value of a metrics table.
pub open spec fn metric_rows_view(s: Seq<(String, PatternMetric)>) -> Seq<(Seq<char>, MetricView)> {
    s.map_values(|p: (String, PatternMetric)| (p.0@, p.1@))
}

fn inner_of_exec(kind: &str, f: &PatternFact) -> (r: Option<String>)
    ensures
        opt_view(r) == inner_of(kind@, *f),
{
    if str_eq(kind, "trait_impl") {
        if f.cfg_gated {
            None
        } else {
            clone_opt(&f.trait_name)
        }
    } else if str_eq(kind, "derive") {
        clone_opt(&f.trait_name)
    } else if str_eq(kind, "type_usage") {
        clone_opt(&f.name)
    } else if str_eq(kind, "reg_macro") {
        if opt_is(&f.kind, "macro_invocation") {
            clone_opt(&f.name)
        } else {
            None
        }
    } else if str_eq(kind, "attr_macro") {
        if opt_is(&f.kind, "attr_macro") {
            clone_opt(&f.name)
        } else {
            None
        }
    } else {
        None
    }
}

fn pairs_contain(v: &Vec<(String, String)>, a: &str, b: &str) -> (r: bool)
    ensures
        r == pairs_view(v@).contains((a@, b@)),
{
    let ghost pv = pairs_view(v@);
    let mut i: usize = 0;
    while i < v.len()
        invariant
            i <= v@.len(),
            pv == pairs_view(v@),
            forall|k: int| 0 <= k < i ==> pv[k] != (a@, b@),
        decreases v@.len() - i,
    {
        if str_eq(v[i].0.as_str(), a) && str_eq(v[i].1.as_str(), b) {
            assert(pv[i as int] == (a@, b@));
            return true;
        }
        i = i + 1;
    }
    false
}

fn add_seen_exec(seen: &mut Vec<(String, String)>, kind: &str, facts: &Vec<PatternFact>)
    ensures
        pairs_view(final(seen)@) == add_seen(pairs_view(old(seen)@), kind@, facts@),
{
    let ghost start = pairs_view(seen@);
    let mut i: usize = 0;
    while i < facts.len()
        invariant
            i <= facts@.len(),
            pairs_view(seen@) == add_seen(start, kind@, facts@.take(i as int)),
        decreases facts@.len() - i,
    {
        proof {
            assert(facts@.take(i + 1).drop_last() =~= facts@.take(i as int));
            assert(facts@.take(i + 1).last() == facts@[i as int]);
        }
        if let Some(x) = inner_of_exec(kind, &facts[i]) {
            if !pairs_contain(seen, kind, x.as_str()) {
                let ghost before = pairs_view(seen@);
                seen.push((kind.to_string(), x));
                assert(pairs_view(seen@) =~= before.push((kind@, seen@.last().1@)));
            }
        }
        i = i + 1;
    }
    assert(facts@.take(i as int) =~= facts@);
}

fn kind_source_exec<'a>(kind: &str, src: &'a KindSources) -> (r: Option<&'a Vec<PatternFact>>)
    ensures
        match r {
            Some(v) => v@ == kind_source(kind@, *src),
            None => kind_source(kind@, *src) == Seq::<PatternFact>::empty(),
        },
{
    if str_eq(kind, "trait_impl") {
        Some(&src.impls)
    } else if str_eq(kind, "derive") {
        Some(&src.derives)
    } else if str_eq(kind, "type_usage") {
        Some(&src.type_usages)
    } else if str_eq(kind, "reg_macro") || str_eq(kind, "attr_macro") {
        Some(&src.macros)
    } else {
        None
    }
}

fn kind_row_exec(
    kind: &str,
    inner: &str,
    src: &KindSources,
    lookups: &DefLookups,
    ctx: &SiteContext,
    counts: &Vec<(String, (usize, usize, usize))>,
    filters: &FiltersConfig,
) -> (r: Option<PatternMetric>)
    ensures
        match r {
            Some(m) => kind_row(kind@, inner@, *src, *lookups, *ctx, triples_view(counts@), filters.pattern_skip_substrings@)
                == Some(m@),
            None => kind_row(kind@, inner@, *src, *lookups, *ctx, triples_view(counts@), filters.pattern_skip_substrings@)
                is None,
        },
{
    proof {
        reveal_strlit("pub");
    }
    let empty: Vec<PatternFact> = Vec::new();
    let source: &Vec<PatternFact> = match kind_source_exec(kind, src) {
        Some(v) => v,
        None => &empty,
    };
    assert(source@ == kind_source(kind@, *src)) by {
        assert(empty@ =~= Seq::<PatternFact>::empty());
    }
    let tu = str_eq(kind, "type_usage");
    let ex_files = example_file_count(kind, inner, source);
    let tu_evidence = example_counts_for(inner, counts);
    let curated = if tu {
        tu_evidence.0
    } else {
        ex_files
    };
    let mut key = kind.to_string();
    push_str(&mut key, ":");
    push_str(&mut key, inner);
    if should_skip_pattern(key.as_str(), filters) {
        return None;
    }
    match pattern_def(kind, inner, lookups) {
        None => Some(
            PatternMetric {
                defining_crate: None,
                intra_count: 0,
                inter_count: 0,
                is_pub: false,
                curated_example_count: curated,
                sub_form: None,
                example_files: if tu {
                    tu_evidence.0
                } else {
                    ex_files
                },
                example_test_files: if tu {
                    tu_evidence.1
                } else {
                    0
                },
                example_bench_files: if tu {
                    tu_evidence.2
                } else {
                    0
                },
            },
        ),
        Some((d, from)) => {
            let target = if tu {
                outer_segment(inner)
            } else {
                inner.to_string()
            };
            let (intra, inter, gated) = count_pattern_sites(
                kind,
                inner,
                source,
                d.crate_name.as_str(),
                target.as_str(),
                ctx,
            );
            let weak = match from {
                DefSource::Mod => true,
                DefSource::CrateName => true,
                _ => false,
            };
            if tu && weak && intra == 0 && inter == 0 {
                return None;
            }
            let is_pub = str_starts_with(d.visibility.as_str(), "pub") || d.macro_exported;
            let c = if tu {
                curated
            } else {
                gated.len()
            };
            Some(
                PatternMetric {
                    defining_crate: Some(d.crate_name),
                    intra_count: intra,
                    inter_count: inter,
                    is_pub,
                    curated_example_count: c,
                    sub_form: None,
                    example_files: c,
                    example_test_files: if tu {
                        tu_evidence.1
                    } else {
                        0
                    },
                    example_bench_files: if tu {
                        tu_evidence.2
                    } else {
                        0
                    },
                },
            )
        },
    }
}

/// The kind-keyed metrics rows of a workspace: for every pattern its facts
/// name (impls, derives, type usages, macros, then example type usages;
/// first-seen order), the `kind:inner` row of its defining crate, public
/// flag, credited intra / inter sites and curated example count, leaving
/// out keys with a skip substring and type usages attributed only through a
/// module or crate name without a credited site.
pub fn kind_pattern_metrics(
    src: &KindSources,
    lookups: &DefLookups,
    ctx: &SiteContext,
    counts: &Vec<(String, (usize, usize, usize))>,
    filters: &FiltersConfig,
) -> (r: Vec<(String, PatternMetric)>)
    ensures
        metric_rows_view(r@) == kind_rows(
            seen_patterns(*src),
            *src,
            *lookups,
            *ctx,
            triples_view(counts@),
            filters.pattern_skip_substrings@,
        ),
{
    let mut seen: Vec<(String, String)> = Vec::new();
    assert(pairs_view(seen@) =~= Seq::<(Seq<char>, Seq<char>)>::empty());
    add_seen_exec(&mut seen, "trait_impl", &src.impls);
    add_seen_exec(&mut seen, "derive", &src.derives);
    add_seen_exec(&mut seen, "type_usage", &src.type_usages);
    add_seen_exec(&mut seen, "reg_macro", &src.macros);
    add_seen_exec(&mut seen, "attr_macro", &src.macros);
    add_seen_exec(&mut seen, "type_usage", &src.example_type_usages);
    let ghost sv = pairs_view(seen@);
    assert(sv == seen_patterns(*src));
    let ghost cv = triples_view(counts@);
    let ghost skips = filters.pattern_skip_substrings@;
    let mut r: Vec<(String, PatternMetric)> = Vec::new();
    let mut i: usize = 0;
    while i < seen.len()
        invariant
            i <= seen@.len(),
            sv == pairs_view(seen@),
            cv == triples_view(counts@),
            skips == filters.pattern_skip_substrings@,
            metric_rows_view(r@) == kind_rows(sv.take(i as int), *src, *lookups, *ctx, cv, skips),
        decreases seen@.len() - i,
    {
        proof {
            assert(sv.take(i + 1).drop_last() =~= sv.take(i as int));
            assert(sv.take(i + 1).last() == sv[i as int]);
        }
        let kind = seen[i].0.as_str();
        let inner = seen[i].1.as_str();
        if let Some(m) = kind_row_exec(kind, inner, src, lookups, ctx, counts, filters) {
            let mut key = kind.to_string();
            push_str(&mut key, ":");
            push_str(&mut key, inner);
            let ghost before = metric_rows_view(r@);
            let ghost mv = m@;
            r.push((key, m));
            assert(metric_rows_view(r@) =~= before.push((kind_key(kind@, inner@), mv)));
        }
        i = i + 1;
    }
    assert(sv.take(i as int) =~= sv);
    r
}

/// A `use` declaration fact: the file it is in, its path text, the crate
/// declaring it and whether it is a public re-export.
#[derive(Debug, Clone)]
pub struct UseFact {
    pub file: Option<String>,
    pub path: Option<String>,
    pub crate_name: Option<String>,
    pub reexport: bool,
}

/// The (file, path) of every use fact carrying both, in order.
pub open spec fn use_file_paths(us: Seq<UseFact>) -> Seq<(Seq<char>, Seq<char>)>
    decreases us.len(),
{
    if us.len() == 0 {
        Seq::empty()
    } else {
        let prev = use_file_paths(us.drop_last());
        match (us.last().file, us.last().path) {
            (Some(f), Some(p)) => prev.push((f@, p@)),
            _ => prev,
        }
    }
}

/// The (crate, path) of every re-export carrying both, in order.
pub open spec fn reexport_paths(us: Seq<UseFact>) -> Seq<(Seq<char>, Seq<char>)>
    decreases us.len(),
{
    if us.len() == 0 {
        Seq::empty()
    } else {
        let prev = reexport_paths(us.drop_last());
        match (us.last().crate_name, us.last().path) {
            (Some(c), Some(p)) => if us.last().reexport {
                prev.push((c@, p@))
            } else {
                prev
            },
            _ => prev,
        }
    }
}

/// Whether some declaration in `ds` names `n` in crate `c`.
pub open spec fn declares(ds: Seq<ItemDecl>, n: Seq<char>, c: Seq<char>) -> bool {
    exists|i: int| 0 <= i < ds.len() && decl_pair(#[trigger] ds[i]) == Some((n, c))
}

/// Every use path of the facts is one the use-tree grammar can read.
pub open spec fn use_paths_defined(us: Seq<UseFact>) -> bool {
    forall|i: int| 0 <= i < us.len() ==> (match (#[trigger] us[i]).path {
        Some(p) => use_path_defined(p@),
        None => true,
    })
}

proof fn lemma_use_pairs_defined(us: Seq<UseFact>)
    requires
        use_paths_defined(us),
    ensures
        forall|i: int| 0 <= i < use_file_paths(us).len() ==> use_path_defined((#[trigger] use_file_paths(us)[i]).1),
        forall|i: int| 0 <= i < reexport_paths(us).len() ==> use_path_defined((#[trigger] reexport_paths(us)[i]).1),
    decreases us.len(),
{
    if us.len() > 0 {
        let t = us.drop_last();
        assert(use_paths_defined(t)) by {
            assert forall|i: int| 0 <= i < t.len() implies (match (#[trigger] t[i]).path {
                Some(p) => use_path_defined(p@),
                None => true,
            }) by {
                assert(t[i] == us[i]);
            }
        }
        lemma_use_pairs_defined(t);
        let l = us[us.len() - 1];
        assert(l == us.last());
        assert(match l.path {
            Some(p) => use_path_defined(p@),
            None => true,
        });
        let a = use_file_paths(us);
        let pa = use_file_paths(t);
        assert forall|i: int| 0 <= i < a.len() implies use_path_defined((#[trigger] a[i]).1) by {
            if i < pa.len() {
                assert(a[i] == pa[i]);
            }
        }
        let b = reexport_paths(us);
        let pb = reexport_paths(t);
        assert forall|i: int| 0 <= i < b.len() implies use_path_defined((#[trigger] b[i]).1) by {
            if i < pb.len() {
                assert(b[i] == pb[i]);
            }
        }
    }
}

fn add_decls(sets: &mut NameSets, ds: &Vec<ItemDecl>)
    ensures
        forall|n: Seq<char>, c: Seq<char>|
            #[trigger] member_of(final(sets)@, n, c) == (member_of(old(sets)@, n, c) || declares(ds@, n, c)),
{
    let ghost start = sets@;
    let mut i: usize = 0;
    while i < ds.len()
        invariant
            i <= ds@.len(),
            forall|n: Seq<char>, c: Seq<char>|
                member_of(sets@, n, c) == (member_of(start, n, c) || declares(ds@.take(i as int), n, c)),
        decreases ds@.len() - i,
    {
        let ghost pre = ds@.take(i as int);
        let ghost post = ds@.take(i + 1);
        proof {
            assert(post =~= pre.push(ds@[i as int]));
        }
        let ghost before_sets = sets@;
        if let Some((n, c)) = decl_pair_exec(&ds[i]) {
            sets.insert(n.as_str(), c.as_str());
            assert forall|x: Seq<char>, y: Seq<char>|
                member_of(sets@, x, y) == (member_of(start, x, y) || declares(post, x, y)) by {
                assert(member_of(before_sets, x, y) == (member_of(start, x, y) || declares(pre, x, y)));
                if declares(post, x, y) {
                    let k = choose|k: int| 0 <= k < post.len() && decl_pair(#[trigger] post[k]) == Some((x, y));
                    if k < pre.len() {
                        assert(pre[k] == post[k]);
                    }
                }
                if declares(pre, x, y) {
                    let k = choose|k: int| 0 <= k < pre.len() && decl_pair(#[trigger] pre[k]) == Some((x, y));
                    assert(post[k] == pre[k]);
                }
                if x == n@ && y == c@ {
                    assert(decl_pair(post[i as int]) == Some((x, y)));
                }
            }
        } else {
            assert forall|x: Seq<char>, y: Seq<char>|
                member_of(sets@, x, y) == (member_of(start, x, y) || declares(post, x, y)) by {
                assert(member_of(before_sets, x, y) == (member_of(start, x, y) || declares(pre, x, y)));
                if declares(post, x, y) {
                    let k = choose|k: int| 0 <= k < post.len() && decl_pair(#[trigger] post[k]) == Some((x, y));
                    if k < pre.len() {
                        assert(pre[k] == post[k]);
                    }
                }
                if declares(pre, x, y) {
                    let k = choose|k: int| 0 <= k < pre.len() && decl_pair(#[trigger] pre[k]) == Some((x, y));
                    assert(post[k] == pre[k]);
                }
            }
        }
        i = i + 1;
    }
    proof {
        assert(ds@.take(i as int) =~= ds@);
        assert forall|n: Seq<char>, c: Seq<char>|
            #[trigger] member_of(sets@, n, c) == (member_of(start, n, c) || declares(ds@, n, c)) by {
            assert(member_of(sets@, n, c) == (member_of(start, n, c) || declares(ds@.take(i as int), n, c)));
        }
    }
}

fn file_path_pairs(uses: &Vec<UseFact>) -> (r: Vec<(String, String)>)
    ensures
        pairs_view(r@) == use_file_paths(uses@),
{
    let mut r: Vec<(String, String)> = Vec::new();
    let mut i: usize = 0;
    while i < uses.len()
        invariant
            i <= uses@.len(),
            pairs_view(r@) == use_file_paths(uses@.take(i as int)),
        decreases uses@.len() - i,
    {
        proof {
            assert(uses@.take(i + 1).drop_last() =~= uses@.take(i as int));
            assert(uses@.take(i + 1).last() == uses@[i as int]);
        }
        if let (Some(f), Some(p)) = (&uses[i].file, &uses[i].path) {
            let ghost before = pairs_view(r@);
            r.push((f.clone(), p.clone()));
            assert(pairs_view(r@) =~= before.push((f@, p@)));
        }
        i = i + 1;
    }
    assert(uses@.take(i as int) =~= uses@);
    r
}

fn reexport_pairs(uses: &Vec<UseFact>) -> (r: Vec<(String, String)>)
    ensures
        pairs_view(r@) == reexport_paths(uses@),
{
    let mut r: Vec<(String, String)> = Vec::new();
    let mut i: usize = 0;
    while i < uses.len()
        invariant
            i <= uses@.len(),
            pairs_view(r@) == reexport_paths(uses@.take(i as int)),
        decreases uses@.len() - i,
    {
        proof {
            assert(uses@.take(i + 1).drop_last() =~= uses@.take(i as int));
            assert(uses@.take(i + 1).last() == uses@[i as int]);
        }
        if let (Some(c), Some(p)) = (&uses[i].crate_name, &uses[i].path) {
            if uses[i].reexport {
                let ghost before = pairs_view(r@);
                r.push((c.clone(), p.clone()));
                assert(pairs_view(r@) =~= before.push((c@, p@)));
            }
        }
        i = i + 1;
    }
    assert(uses@.take(i as int) =~= uses@);
    r
}

/// Builds what origin resolution reads from a workspace's facts: the import
/// surface of every (file, path) use, the crate vocabulary, the crates
/// declaring each type or trait name and each module name, and the facade
/// index of the public re-exports.
pub fn build_site_context(
    uses: &Vec<UseFact>,
    types: &Vec<ItemDecl>,
    traits: &Vec<ItemDecl>,
    mods: &Vec<ItemDecl>,
    crates: &IndexMap<String, CrateInfo>,
) -> (r: SiteContext)
    requires
        use_paths_defined(uses@),
    ensures
        r.import_maps@ == import_entries(use_file_paths(uses@)),
        r.vocab@ == vocab_of(crate_entries(*crates)),
        forall|n: Seq<char>, c: Seq<char>|
            #[trigger] member_of(r.local_decl_crates@, n, c) == (declares(types@, n, c) || declares(traits@, n, c)),
        forall|n: Seq<char>, c: Seq<char>| #[trigger] member_of(r.local_mod_crates@, n, c) == declares(mods@, n, c),
        r.facades.leaf_reexports@ == leaf_sets(reexport_paths(uses@)),
        forall|a: Seq<char>, b: Seq<char>| #[trigger] member_of(r.facades.ns_closure@, a, b) <==> (b != a
            && graph_reaches(namespace_edges(reexport_paths(uses@), vocab_of(crate_entries(*crates))), a, b)),
{
    proof {
        lemma_use_pairs_defined(uses@);
    }
    let file_paths = file_path_pairs(uses);
    assert forall|i: int| 0 <= i < file_paths@.len() implies use_path_defined(#[trigger] file_paths@[i].1@) by {
        assert(pairs_view(file_paths@)[i] == (file_paths@[i].0@, file_paths@[i].1@));
    }
    let import_maps = build_import_bindings(file_paths.as_slice());
    let vocab = ResolveVocab::from_crates(crates);
    let mut local_decl_crates = NameSets::new();
    let ghost e0 = local_decl_crates@;
    add_decls(&mut local_decl_crates, types);
    let ghost e1 = local_decl_crates@;
    add_decls(&mut local_decl_crates, traits);
    let mut local_mod_crates = NameSets::new();
    let ghost m0 = local_mod_crates@;
    add_decls(&mut local_mod_crates, mods);
    assert forall|n: Seq<char>, c: Seq<char>|
        #[trigger] member_of(local_decl_crates@, n, c) == (declares(types@, n, c) || declares(traits@, n, c)) by {
        assert(!member_of(e0, n, c));
        assert(member_of(e1, n, c) == (member_of(e0, n, c) || declares(types@, n, c)));
        assert(member_of(local_decl_crates@, n, c) == (member_of(e1, n, c) || declares(traits@, n, c)));
    }
    assert forall|n: Seq<char>, c: Seq<char>| #[trigger] member_of(local_mod_crates@, n, c) == declares(mods@, n, c) by {
        assert(!member_of(m0, n, c));
    }
    let reexports = reexport_pairs(uses);
    assert forall|i: int| 0 <= i < reexports@.len() implies use_path_defined(#[trigger] reexports@[i].1@) by {
        assert(pairs_view(reexports@)[i] == (reexports@[i].0@, reexports@[i].1@));
    }
    let facades = build_facade_index(reexports.as_slice(), &vocab);
    SiteContext { import_maps, vocab, local_decl_crates, local_mod_crates, facades }
}

/// Builds the declaration lookups: types (canonical crate by impl count),
/// traits, macros and modules (first declaration), and the crate names seen
/// in the facts.
pub fn build_def_lookups(
    types: &Vec<ItemDecl>,
    traits: &Vec<ItemDecl>,
    macro_defs: &Vec<MacroDecl>,
    mods: &Vec<ItemDecl>,
    impls: &Vec<ImplSite>,
    crate_names: &Vec<String>,
) -> (r: DefLookups)
    ensures
        defs_view(r.types@) == type_lookup_view(types@, impls@),
        defs_view(r.traits@) == first_decls(traits@),
        defs_view(r.macros@) == first_macro_defs(macro_defs@),
        defs_view(r.mods@) == first_decls(mods@),
        strictly_sorted_strings(defs_view(r.crate_names@).map_values(|p: (Seq<char>, DefView)| p.0)),
        defs_view(r.crate_names@).map_values(|p: (Seq<char>, DefView)| p.0).to_set() == strings_view(crate_names@).to_set(),
        forall|i: int| 0 <= i < r.crate_names@.len() ==> (#[trigger] defs_view(r.crate_names@)[i]).1 == (DefView {
            crate_name: defs_view(r.crate_names@)[i].0,
            visibility: "pub"@,
            macro_exported: false,
        }),
{
    DefLookups {
        types: build_type_lookup(types, impls),
        traits: build_trait_lookup(traits),
        macros: build_macro_def_lookup(macro_defs),
        mods: build_mod_lookup(mods),
        crate_names: build_crate_name_lookup(crate_names),
    }
}

/// A trait impl in an example directory is curated evidence, never usage:
/// added as the last impl fact, it leaves the intra and inter counts of
/// every `trait_impl` row as they were and lowers no curated count.
pub proof fn lemma_example_impl_is_no_usage(
    inner: Seq<char>,
    src: KindSources,
    more: KindSources,
    f: PatternFact,
    l: DefLookups,
    ctx: SiteContext,
    counts: Seq<(Seq<char>, (nat, nat, nat))>,
    skips: Seq<String>,
)
    requires
        f.file is Some,
        in_examples(forward_slashes(f.file->Some_0@)),
        more.impls@ == src.impls@.push(f),
    ensures
        kind_row("trait_impl"@, inner, src, l, ctx, counts, skips) is Some <==> kind_row(
            "trait_impl"@,
            inner,
            more,
            l,
            ctx,
            counts,
            skips,
        ) is Some,
        kind_row("trait_impl"@, inner, src, l, ctx, counts, skips) matches Some(a) ==> {
            let b = kind_row("trait_impl"@, inner, more, l, ctx, counts, skips)->Some_0;
            &&& b.intra == a.intra
            &&& b.inter == a.inter
            &&& b.curated >= a.curated
        },
{
    let k = "trait_impl"@;
    let facts = src.impls@;
    let facts2 = more.impls@;
    assert(kind_source(k, src) == facts);
    assert(kind_source(k, more) == facts2);
    assert(facts2.drop_last() =~= facts);
    assert(facts2.last() == f);
    assert(text_or_empty(f.file) == f.file->Some_0@);
    let e1 = example_files(k, inner, facts);
    let e2 = example_files(k, inner, facts2);
    assert(e2.len() >= e1.len());
    match pattern_def_view(k, inner, l) {
        None => {},
        Some((d, from)) => {
            let v1 = site_fold(k, inner, facts, d.crate_name, inner, ctx);
            let v2 = site_fold(k, inner, facts2, d.crate_name, inner, ctx);
            assert(v2.0 == v1.0 && v2.1 == v1.1);
            assert(v2.2.len() >= v1.2.len());
        },
    }
}

} // verus!
