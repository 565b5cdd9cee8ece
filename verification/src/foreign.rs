//! The foreign API surface of a workspace: the non-workspace items and
//! crates it re-exports as part of its public face, grouped by foreign
//! root.

use vstd::prelude::*;
use crate::emit_text::{is_src_file, src_file_view};
use crate::instances::FactRecord;
use crate::lexical::{trim, trim_exec, underscored, underscored_exec};
use crate::metrics::{owned_or_empty, text_or_empty};
use crate::resolution::{opt_view, strings_contain, strings_view};
use crate::sorting::{sort_strings, sorted_view};
use crate::text::{chars_contain, chars_of, contains_seq, str_eq};
use crate::use_tree::{LeafView, UseLeaf, leaf_views, parse_use_leaves, parse_view, use_path_defined};
use crate::vocabulary::{distinct, distinct_exec};

verus! {

/// A workspace crate as the foreign surface reads it: its package name and
/// its `[lib]` name when renamed.
#[derive(Debug, Clone)]
pub struct CrateNames {
    pub name: String,
    pub lib_name: Option<String>,
}

/// One foreign root's re-exported surface: whether the whole crate is
/// re-exported, and the distinct re-exported names in ascending order.
#[derive(Debug, Clone)]
pub struct ForeignRootSurface {
    pub root: String,
    pub namespace: bool,
    pub leaves: Vec<String>,
}

/// The bindings naming workspace crates: every package name and `[lib]`
/// name, hyphens normalized.
pub open spec fn workspace_roots(cs: Seq<CrateNames>) -> Seq<Seq<char>>
    decreases cs.len(),
{
    if cs.len() == 0 {
        Seq::empty()
    } else {
        let prev = workspace_roots(cs.drop_last()).push(underscored(cs.last().name@));
        match cs.last().lib_name {
            Some(l) => prev.push(underscored(l@)),
            None => prev,
        }
    }
}

/// Whether crate `c` declares a module named `m`.
pub open spec fn declares_mod(mods: Seq<FactRecord>, c: Seq<char>, m: Seq<char>) -> bool {
    exists|i: int|
        0 <= i < mods.len() && opt_view((#[trigger] mods[i]).name) == Some(m) && opt_view(mods[i].crate_name) == Some(c)
}

/// Every use path of the facts is one the use-tree grammar can read.
pub open spec fn record_paths_defined(uses: Seq<FactRecord>) -> bool {
    forall|i: int| 0 <= i < uses.len() ==> (match (#[trigger] uses[i]).path {
        Some(p) => use_path_defined(p@),
        None => true,
    })
}

/// The foreign root of a re-export, if it is one: a re-export in a source
/// file whose root is not empty, not `crate` / `self` / `super`, binds no
/// workspace crate and is not a module of the re-exporting crate.
pub open spec fn foreign_root(u: FactRecord, ws: Seq<Seq<char>>, mods: Seq<FactRecord>) -> Option<Seq<char>> {
    match u.path {
        None => None,
        Some(p) => {
            let root = parse_view(p@).0;
            if !u.reexport || !src_file_view(text_or_empty(u.file)) || root.len() == 0 || root == "crate"@ || root
                == "self"@ || root == "super"@ || ws.contains(underscored(root)) {
                None
            } else {
                match u.crate_name {
                    Some(c) => if declares_mod(mods, c@, root) {
                        None
                    } else {
                        Some(root)
                    },
                    None => Some(root),
                }
            }
        },
    }
}

/// The foreign roots of the re-exports, in order (repeats kept).
pub open spec fn foreign_roots(uses: Seq<FactRecord>, ws: Seq<Seq<char>>, mods: Seq<FactRecord>) -> Seq<Seq<char>>
    decreases uses.len(),
{
    if uses.len() == 0 {
        Seq::empty()
    } else {
        match foreign_root(uses.last(), ws, mods) {
            Some(r) => foreign_roots(uses.drop_last(), ws, mods).push(r),
            None => foreign_roots(uses.drop_last(), ws, mods),
        }
    }
}

/// Whether a re-export's path is a whole crate (no `::` once trimmed).
pub open spec fn whole_crate(u: FactRecord) -> bool {
    !contains_seq(trim(text_or_empty(u.path)), "::"@)
}

/// The names bound by named leaves.
pub open spec fn named_bindings(ls: Seq<LeafView>) -> Seq<Seq<char>>
    decreases ls.len(),
{
    if ls.len() == 0 {
        Seq::empty()
    } else {
        match ls.last() {
            LeafView::Named { binding, .. } => named_bindings(ls.drop_last()).push(binding),
            LeafView::Glob { .. } => named_bindings(ls.drop_last()),
        }
    }
}

/// Whether some re-export of root `r` is the whole crate.
pub open spec fn root_is_namespace(uses: Seq<FactRecord>, ws: Seq<Seq<char>>, mods: Seq<FactRecord>, r: Seq<char>) -> bool {
    exists|i: int| 0 <= i < uses.len() && foreign_root(#[trigger] uses[i], ws, mods) == Some(r) && whole_crate(uses[i])
}

/// The names re-exported from root `r` by paths below it, in order.
pub open spec fn root_leaves(uses: Seq<FactRecord>, ws: Seq<Seq<char>>, mods: Seq<FactRecord>, r: Seq<char>) -> Seq<Seq<char>>
    decreases uses.len(),
{
    if uses.len() == 0 {
        Seq::empty()
    } else {
        let prev = root_leaves(uses.drop_last(), ws, mods, r);
        let u = uses.last();
        if foreign_root(u, ws, mods) == Some(r) && !whole_crate(u) {
            prev + named_bindings(parse_view(text_or_empty(u.path)).1)
        } else {
            prev
        }
    }
}

/// The foreign surface: each foreign root (ascending) with whether it is
/// re-exported whole and its distinct re-exported names (ascending).
pub open spec fn foreign_surface_view(
    crates: Seq<CrateNames>,
    mods: Seq<FactRecord>,
    uses: Seq<FactRecord>,
) -> Seq<(Seq<char>, bool, Seq<Seq<char>>)> {
    let ws = workspace_roots(crates);
    sorted_view(distinct(foreign_roots(uses, ws, mods))).map_values(
        |r: Seq<char>| (r, root_is_namespace(uses, ws, mods, r), sorted_view(distinct(root_leaves(uses, ws, mods, r)))),
    )
}

/// The value of a computed surface.
pub open spec fn surface_view(v: Seq<ForeignRootSurface>) -> Seq<(Seq<char>, bool, Seq<Seq<char>>)> {
    v.map_values(|e: ForeignRootSurface| (e.root@, e.namespace, strings_view(e.leaves@)))
}

fn workspace_roots_exec(crates: &Vec<CrateNames>) -> (r: Vec<String>)
    ensures
        strings_view(r@) == workspace_roots(crates@),
{
    let mut r: Vec<String> = Vec::new();
    let mut i: usize = 0;
    while i < crates.len()
        invariant
            i <= crates@.len(),
            strings_view(r@) == workspace_roots(crates@.take(i as int)),
        decreases crates@.len() - i,
    {
        proof {
            assert(crates@.take(i + 1).drop_last() =~= crates@.take(i as int));
            assert(crates@.take(i + 1).last() == crates@[i as int]);
        }
        let ghost b0 = strings_view(r@);
        let n = underscored_exec(crates[i].name.as_str());
        let ghost nv = n@;
        r.push(n);
        assert(strings_view(r@) =~= b0.push(nv));
        if let Some(l) = &crates[i].lib_name {
            let ghost b1 = strings_view(r@);
            let u = underscored_exec(l.as_str());
            let ghost uv = u@;
            r.push(u);
            assert(strings_view(r@) =~= b1.push(uv));
        }
        i = i + 1;
    }
    assert(crates@.take(i as int) =~= crates@);
    r
}

fn declares_mod_exec(mods: &Vec<FactRecord>, c: &str, m: &str) -> (r: bool)
    ensures
        r == declares_mod(mods@, c@, m@),
{
    let mut i: usize = 0;
    while i < mods.len()
        invariant
            i <= mods@.len(),
            forall|k: int|
                0 <= k < i ==> !(opt_view((#[trigger] mods@[k]).name) == Some(m@) && opt_view(mods@[k].crate_name) == Some(
                    c@,
                )),
        decreases mods@.len() - i,
    {
        let hit = match (&mods[i].name, &mods[i].crate_name) {
            (Some(n), Some(k)) => str_eq(n.as_str(), m) && str_eq(k.as_str(), c),
            _ => false,
        };
        if hit {
            return true;
        }
        i = i + 1;
    }
    false
}

fn foreign_root_exec(u: &FactRecord, ws: &Vec<String>, mods: &Vec<FactRecord>) -> (r: Option<String>)
    requires
        match u.path {
            Some(p) => use_path_defined(p@),
            None => true,
        },
    ensures
        opt_view(r) == foreign_root(*u, strings_view(ws@), mods@),
{
    let p = match &u.path {
        Some(p) => p,
        None => return None,
    };
    let parsed = parse_use_leaves(p.as_str());
    let root = parsed.root;
    let file = owned_or_empty(&u.file);
    if !u.reexport || !is_src_file(file.as_str()) || root.as_str().is_empty() || str_eq(root.as_str(), "crate")
        || str_eq(root.as_str(), "self") || str_eq(root.as_str(), "super") || strings_contain(
        ws,
        underscored_exec(root.as_str()).as_str(),
    ) {
        return None;
    }
    match &u.crate_name {
        Some(c) => {
            if declares_mod_exec(mods, c.as_str(), root.as_str()) {
                None
            } else {
                Some(root)
            }
        },
        None => Some(root),
    }
}

fn whole_crate_exec(u: &FactRecord) -> (b: bool)
    ensures
        b == whole_crate(*u),
{
    proof {
        reveal_strlit("::");
    }
    let p = owned_or_empty(&u.path);
    let cs = chars_of(p.as_str());
    let t = trim_exec(&cs);
    let sep = chars_of("::");
    !chars_contain(&t, &sep)
}

fn named_bindings_exec(ls: &Vec<UseLeaf>) -> (r: Vec<String>)
    ensures
        strings_view(r@) == named_bindings(leaf_views(ls@)),
{
    let ghost lv = leaf_views(ls@);
    let mut r: Vec<String> = Vec::new();
    let mut i: usize = 0;
    while i < ls.len()
        invariant
            i <= ls@.len(),
            lv == leaf_views(ls@),
            strings_view(r@) == named_bindings(lv.take(i as int)),
        decreases ls@.len() - i,
    {
        proof {
            assert(lv.take(i + 1).drop_last() =~= lv.take(i as int));
            assert(lv.take(i + 1).last() == ls@[i as int]@);
        }
        match &ls[i] {
            UseLeaf::Named { binding, .. } => {
                let ghost before = strings_view(r@);
                r.push(binding.clone());
                assert(strings_view(r@) =~= before.push(binding@));
            },
            UseLeaf::Glob { .. } => {},
        }
        i = i + 1;
    }
    assert(lv.take(i as int) =~= lv);
    r
}

fn append_strings(out: &mut Vec<String>, more: &Vec<String>)
    ensures
        strings_view(final(out)@) == strings_view(old(out)@) + strings_view(more@),
{
    let ghost start = strings_view(out@);
    let mut i: usize = 0;
    while i < more.len()
        invariant
            i <= more@.len(),
            strings_view(out@) == start + strings_view(more@).take(i as int),
        decreases more@.len() - i,
    {
        let ghost before = strings_view(out@);
        out.push(more[i].clone());
        assert(strings_view(out@) =~= before.push(more@[i as int]@));
        assert(strings_view(more@).take(i + 1) =~= strings_view(more@).take(i as int).push(more@[i as int]@));
        i = i + 1;
    }
    assert(strings_view(more@).take(i as int) =~= strings_view(more@));
}

/// The foreign API surface: every re-export in a source file whose root is
/// neither a workspace crate (package or `[lib]` name), nor `crate` /
/// `self` / `super`, nor a module of the re-exporting crate, grouped by
/// root (ascending); a root is marked as a namespace when some re-export
/// names the whole crate, and lists the distinct names its deeper
/// re-exports bind (ascending).
pub fn foreign_api_surface(
    crates: &Vec<CrateNames>,
    mods: &Vec<FactRecord>,
    uses: &Vec<FactRecord>,
) -> (r: Vec<ForeignRootSurface>)
    requires
        record_paths_defined(uses@),
    ensures
        surface_view(r@) == foreign_surface_view(crates@, mods@, uses@),
{
    let ws = workspace_roots_exec(crates);
    let ghost wv = strings_view(ws@);
    let mut roots: Vec<Option<String>> = Vec::new();
    let mut all: Vec<String> = Vec::new();
    let mut i: usize = 0;
    while i < uses.len()
        invariant
            i <= uses@.len(),
            record_paths_defined(uses@),
            wv == strings_view(ws@),
            wv == workspace_roots(crates@),
            roots@.len() == i,
            forall|k: int| 0 <= k < i ==> opt_view(#[trigger] roots@[k]) == foreign_root(uses@[k], wv, mods@),
            strings_view(all@) == foreign_roots(uses@.take(i as int), wv, mods@),
        decreases uses@.len() - i,
    {
        proof {
            assert(uses@.take(i + 1).drop_last() =~= uses@.take(i as int));
            assert(uses@.take(i + 1).last() == uses@[i as int]);
            assert(match uses@[i as int].path {
                Some(p) => use_path_defined(p@),
                None => true,
            });
        }
        let fr = foreign_root_exec(&uses[i], &ws, mods);
        if let Some(x) = &fr {
            let ghost before = strings_view(all@);
            all.push(x.clone());
            assert(strings_view(all@) =~= before.push(x@));
        }
        roots.push(fr);
        i = i + 1;
    }
    assert(uses@.take(i as int) =~= uses@);
    let uniq = distinct_exec(&all);
    let order = sort_strings(&uniq);
    let ghost ov = strings_view(order@);
    let ghost want = foreign_surface_view(crates@, mods@, uses@);
    let mut out: Vec<ForeignRootSurface> = Vec::new();
    let mut j: usize = 0;
    while j < order.len()
        invariant
            j <= order@.len(),
            record_paths_defined(uses@),
            ov == strings_view(order@),
            ov == sorted_view(distinct(foreign_roots(uses@, wv, mods@))),
            wv == workspace_roots(crates@),
            wv == strings_view(ws@),
            roots@.len() == uses@.len(),
            forall|k: int| 0 <= k < uses@.len() ==> opt_view(#[trigger] roots@[k]) == foreign_root(uses@[k], wv, mods@),
            want == foreign_surface_view(crates@, mods@, uses@),
            surface_view(out@) == want.take(j as int),
        decreases order@.len() - j,
    {
        let r = order[j].as_str();
        let mut namespace = false;
        let mut leaves: Vec<String> = Vec::new();
        let mut k: usize = 0;
        while k < uses.len()
            invariant
                k <= uses@.len(),
                record_paths_defined(uses@),
                roots@.len() == uses@.len(),
                forall|t: int| 0 <= t < uses@.len() ==> opt_view(#[trigger] roots@[t]) == foreign_root(uses@[t], wv, mods@),
                namespace == exists|t: int|
                    0 <= t < k && foreign_root(#[trigger] uses@[t], wv, mods@) == Some(r@) && whole_crate(uses@[t]),
                strings_view(leaves@) == root_leaves(uses@.take(k as int), wv, mods@, r@),
            decreases uses@.len() - k,
        {
            proof {
                assert(uses@.take(k + 1).drop_last() =~= uses@.take(k as int));
                assert(uses@.take(k + 1).last() == uses@[k as int]);
                assert(opt_view(roots@[k as int]) == foreign_root(uses@[k as int], wv, mods@));
            }
            let hit = match &roots[k] {
                Some(x) => str_eq(x.as_str(), r),
                None => false,
            };
            if hit {
                if whole_crate_exec(&uses[k]) {
                    namespace = true;
                } else {
                    let p = owned_or_empty(&uses[k].path);
                    proof {
                        assert(match uses@[k as int].path {
                            Some(q) => use_path_defined(q@),
                            None => true,
                        });
                        assert(uses@[k as int].path is Some);
                    }
                    let parsed = parse_use_leaves(p.as_str());
                    let names = named_bindings_exec(&parsed.leaves);
                    append_strings(&mut leaves, &names);
                }
            }
            k = k + 1;
        }
        assert(uses@.take(k as int) =~= uses@);
        let uniq_leaves = distinct_exec(&leaves);
        let sorted_leaves = sort_strings(&uniq_leaves);
        let ghost before = surface_view(out@);
        let e = ForeignRootSurface { root: order[j].clone(), namespace, leaves: sorted_leaves };
        let ghost ev = (e.root@, e.namespace, strings_view(e.leaves@));
        out.push(e);
        proof {
            assert(surface_view(out@) =~= before.push(ev));
            assert(want[j as int] == ev);
            assert(want.take(j + 1) =~= want.take(j as int).push(want[j as int]));
        }
        j = j + 1;
    }
    assert(want.take(j as int) =~= want);
    out
}

} // verus!
