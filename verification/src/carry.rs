//! The workspace-origin gate on carried picks: carry keys and carried names
//! survive only when the workspace itself declares them.

use vstd::prelude::*;
use crate::metrics::ItemDecl;
use crate::pattern::{Pattern, PatternView};
use crate::resolution::{strings_contain, strings_view};
use crate::text::str_eq;

verus! {

/// The declared names of a list of declarations.
pub open spec fn decl_names(ds: Seq<ItemDecl>) -> Seq<Seq<char>>
    decreases ds.len(),
{
    if ds.len() == 0 {
        Seq::empty()
    } else {
        match ds.last().name {
            Some(n) => decl_names(ds.drop_last()).push(n@),
            None => decl_names(ds.drop_last()),
        }
    }
}

/// A carry key the workspace declares: a structure of a workspace type; a
/// trait or derive key of a workspace trait; a function key whose outer is
/// `_` or a workspace type or trait; never a utility or global.
pub open spec fn carry_key_ok(p: PatternView, types: Seq<Seq<char>>, traits: Seq<Seq<char>>) -> bool {
    match p {
        PatternView::Structure(n) => types.contains(n),
        PatternView::Traits(n) => traits.contains(n),
        PatternView::Derives(n) => traits.contains(n),
        PatternView::ImplementationFunctions { outer, .. } => outer == "_"@ || types.contains(outer) || traits.contains(
            outer,
        ),
        PatternView::TraitFunctions { outer, .. } => outer == "_"@ || types.contains(outer) || traits.contains(outer),
        PatternView::Utilities(_) => false,
        PatternView::Globals(_) => false,
    }
}

/// The carried names that name a workspace type or trait, in order.
pub open spec fn kept_names(ns: Seq<Seq<char>>, types: Seq<Seq<char>>, traits: Seq<Seq<char>>) -> Seq<Seq<char>>
    decreases ns.len(),
{
    if ns.len() == 0 {
        Seq::empty()
    } else {
        let prev = kept_names(ns.drop_last(), types, traits);
        if types.contains(ns.last()) || traits.contains(ns.last()) {
            prev.push(ns.last())
        } else {
            prev
        }
    }
}

/// The gated carries: each workspace-declared key with its workspace-declared
/// carried names, dropping keys left with none, in order.
pub open spec fn gated_carries(
    cs: Seq<(PatternView, Seq<Seq<char>>)>,
    types: Seq<Seq<char>>,
    traits: Seq<Seq<char>>,
) -> Seq<(PatternView, Seq<Seq<char>>)>
    decreases cs.len(),
{
    if cs.len() == 0 {
        Seq::empty()
    } else {
        let prev = gated_carries(cs.drop_last(), types, traits);
        let (p, ns) = cs.last();
        let kept = kept_names(ns, types, traits);
        if carry_key_ok(p, types, traits) && kept.len() > 0 {
            prev.push((p, kept))
        } else {
            prev
        }
    }
}

/// The value of a carry table: each key with its carried names.
pub open spec fn carries_view(cs: Seq<(Pattern, Vec<String>)>) -> Seq<(PatternView, Seq<Seq<char>>)> {
    cs.map_values(|c: (Pattern, Vec<String>)| (c.0@, strings_view(c.1@)))
}

fn names_of(ds: &Vec<ItemDecl>) -> (r: Vec<String>)
    ensures
        strings_view(r@) == decl_names(ds@),
{
    let mut r: Vec<String> = Vec::new();
    let mut i: usize = 0;
    while i < ds.len()
        invariant
            i <= ds@.len(),
            strings_view(r@) == decl_names(ds@.take(i as int)),
        decreases ds@.len() - i,
    {
        proof {
            assert(ds@.take(i + 1).drop_last() =~= ds@.take(i as int));
            assert(ds@.take(i + 1).last() == ds@[i as int]);
        }
        if let Some(n) = &ds[i].name {
            let ghost before = strings_view(r@);
            r.push(n.clone());
            assert(strings_view(r@) =~= before.push(n@));
        }
        i = i + 1;
    }
    assert(ds@.take(i as int) =~= ds@);
    r
}

fn key_ok(p: &Pattern, types: &Vec<String>, traits: &Vec<String>) -> (r: bool)
    ensures
        r == carry_key_ok(p@, strings_view(types@), strings_view(traits@)),
{
    match p {
        Pattern::Structure(n) => strings_contain(types, n.as_str()),
        Pattern::Traits(n) => strings_contain(traits, n.as_str()),
        Pattern::Derives(n) => strings_contain(traits, n.as_str()),
        Pattern::ImplementationFunctions { outer, .. } => str_eq(outer.as_str(), "_") || strings_contain(
            types,
            outer.as_str(),
        ) || strings_contain(traits, outer.as_str()),
        Pattern::TraitFunctions { outer, .. } => str_eq(outer.as_str(), "_") || strings_contain(types, outer.as_str())
            || strings_contain(traits, outer.as_str()),
        Pattern::Utilities(_) => false,
        Pattern::Globals(_) => false,
    }
}

fn copy_pattern(p: &Pattern) -> (r: Pattern)
    ensures
        r@ == p@,
{
    match p {
        Pattern::Traits(n) => Pattern::Traits(n.clone()),
        Pattern::TraitFunctions { outer, inner } => Pattern::TraitFunctions { outer: outer.clone(), inner: inner.clone() },
        Pattern::Structure(n) => Pattern::Structure(n.clone()),
        Pattern::ImplementationFunctions { outer, inner } => Pattern::ImplementationFunctions {
            outer: outer.clone(),
            inner: inner.clone(),
        },
        Pattern::Derives(n) => Pattern::Derives(n.clone()),
        Pattern::Utilities(n) => Pattern::Utilities(n.clone()),
        Pattern::Globals(n) => Pattern::Globals(n.clone()),
    }
}

/// Gates carried picks to workspace origin: a key survives when the
/// workspace declares it (structures as types; traits and derives as
/// traits; function keys by a `_`, type or trait outer; never utilities
/// or globals), keeping only its carried names that are workspace types or
/// traits, and dropping keys left with none.
pub fn filter_carries_to_workspace(
    carries: &Vec<(Pattern, Vec<String>)>,
    types: &Vec<ItemDecl>,
    traits: &Vec<ItemDecl>,
) -> (r: Vec<(Pattern, Vec<String>)>)
    ensures
        carries_view(r@) == gated_carries(carries_view(carries@), decl_names(types@), decl_names(traits@)),
{
    let ty = names_of(types);
    let tr = names_of(traits);
    let ghost tv = strings_view(ty@);
    let ghost rv = strings_view(tr@);
    let ghost cv = carries_view(carries@);
    let mut out: Vec<(Pattern, Vec<String>)> = Vec::new();
    let mut i: usize = 0;
    while i < carries.len()
        invariant
            i <= carries@.len(),
            tv == strings_view(ty@),
            rv == strings_view(tr@),
            tv == decl_names(types@),
            rv == decl_names(traits@),
            cv == carries_view(carries@),
            carries_view(out@) == gated_carries(cv.take(i as int), tv, rv),
        decreases carries@.len() - i,
    {
        proof {
            assert(cv.take(i + 1).drop_last() =~= cv.take(i as int));
            assert(cv.take(i + 1).last() == cv[i as int]);
        }
        let (p, names) = (&carries[i].0, &carries[i].1);
        let ghost nv = strings_view(names@);
        let mut kept: Vec<String> = Vec::new();
        let mut j: usize = 0;
        while j < names.len()
            invariant
                j <= names@.len(),
                nv == strings_view(names@),
                tv == strings_view(ty@),
                rv == strings_view(tr@),
                strings_view(kept@) == kept_names(nv.take(j as int), tv, rv),
            decreases names@.len() - j,
        {
            proof {
                assert(nv.take(j + 1).drop_last() =~= nv.take(j as int));
                assert(nv.take(j + 1).last() == names@[j as int]@);
            }
            let n = names[j].as_str();
            if strings_contain(&ty, n) || strings_contain(&tr, n) {
                let ghost before = strings_view(kept@);
                kept.push(names[j].clone());
                assert(strings_view(kept@) =~= before.push(n@));
            }
            j = j + 1;
        }
        assert(nv.take(j as int) =~= nv);
        if key_ok(p, &ty, &tr) && kept.len() > 0 {
            let ghost before = carries_view(out@);
            let ghost kv = strings_view(kept@);
            out.push((copy_pattern(p), kept));
            assert(carries_view(out@) =~= before.push((p@, kv)));
        }
        i = i + 1;
    }
    assert(cv.take(i as int) =~= cv);
    out
}

} // verus!
