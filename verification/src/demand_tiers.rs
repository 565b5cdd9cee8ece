//! The tiers of a demand trace: each demanded name is served by the target's
//! bundle (a hit), is a crate or module namespace import, is served only by
//! a foreign re-export, or is a miss; each demanded pair is served exactly,
//! at name level, by a foreign re-export, or missed.

use vstd::prelude::*;
use crate::assoc::{first_value, lemma_first_value_prefix, lemma_first_value_step};
use crate::demand::{DemandRecord, DemandReport, DemandSummary};
use crate::grouping::split_once_str;
use crate::pattern::{Pattern, PatternView};
use crate::lexical::{split_exec, split_seq, underscored, underscored_exec};
use crate::resolution::{strings_contain, strings_view};
use crate::text::{chars_of, push_str, split_once, str_eq, string_of};

verus! {

/// One demanded name as the trace collected it: the name, the consumer
/// streams that demanded it, how many sites demand it, and the target
/// roots (and written qualifiers) it was reached through.
#[derive(Debug, Clone)]
pub struct DemandedName {
    pub name: String,
    pub srcs: Vec<String>,
    pub sites: usize,
    pub roots: Vec<String>,
}

/// What the target presents to a demand trace: the declared kinds of each
/// name, its module names, its crate bindings (normalized), the names its
/// bundle covers (picks and carried names), its rendered pair picks, its
/// pair aliases (alternate outers of a pair), the canonical paths the
/// rustdoc overlay lists for each function name, and the names and
/// namespaces it re-exports from foreign crates.
#[derive(Debug, Clone)]
pub struct TargetSurface {
    pub decl_kinds: Vec<(String, Vec<String>)>,
    pub mods: Vec<String>,
    pub target_crates: Vec<String>,
    pub covered: Vec<String>,
    pub pick_pairs: Vec<String>,
    pub pair_aliases: Vec<(String, Vec<String>)>,
    pub overlay_fn_paths: Vec<(String, Vec<String>)>,
    pub foreign_leafs: Vec<String>,
    pub foreign_ns: Vec<String>,
}

/// The tier of a demanded name.
#[derive(Debug, Clone, Copy, PartialEq, Eq, Structural)]
pub enum NameTier {
    ModNamespace,
    Hit,
    ForeignReexport,
    Miss,
}

/// The tier of a demanded pair.
#[derive(Debug, Clone, Copy, PartialEq, Eq, Structural)]
pub enum PairTier {
    Exact,
    NameLevel,
    ForeignReexport,
    Miss,
}

/// The value of a name-to-list table.
pub open spec fn table_view(v: Seq<(String, Vec<String>)>) -> Seq<(Seq<char>, Seq<Seq<char>>)> {
    v.map_values(|e: (String, Vec<String>)| (e.0@, strings_view(e.1@)))
}

/// The part of a pair key after its first `::` (empty when it has none).
pub open spec fn pair_inner(p: Seq<char>) -> Seq<char> {
    match split_once(p, "::"@) {
        Some((_, i)) => i,
        None => Seq::empty(),
    }
}

/// The part of a pair key before its first `::` (the whole key when it
/// has none).
pub open spec fn pair_outer(p: Seq<char>) -> Seq<char> {
    match split_once(p, "::"@) {
        Some((o, _)) => o,
        None => p,
    }
}

/// The second-to-last `::` segment of a path, when it has two or more.
pub open spec fn penultimate(p: Seq<char>) -> Option<Seq<char>> {
    let segs = split_seq(p, "::"@);
    if segs.len() >= 2 {
        Some(segs[segs.len() - 2])
    } else {
        None
    }
}

/// `o` is an alternate outer of rendered pair `rp`: its pair aliases list
/// it, or it is the penultimate segment of an overlay path of the pair's
/// inner name.
pub open spec fn outer_listed(t: TargetSurface, rp: Seq<char>, o: Seq<char>) -> bool {
    (match first_value(table_view(t.pair_aliases@), rp) {
        Some(os) => os.contains(o),
        None => false,
    }) || (match first_value(table_view(t.overlay_fn_paths@), pair_inner(rp)) {
        Some(ps) => exists|j: int| 0 <= j < ps.len() && penultimate(#[trigger] ps[j]) == Some(o),
        None => false,
    })
}

/// A rendered pair with inner `inner` may be reached under one of `set`.
pub open spec fn pair_alias_hit(t: TargetSurface, rp: Seq<char>, inner: Seq<char>, set: Seq<Seq<char>>) -> bool {
    split_once(rp, "::"@) is Some && pair_inner(rp) == inner && exists|j: int|
        0 <= j < set.len() && #[trigger] outer_listed(t, rp, set[j])
}

/// Some rendered pair with inner `inner` may be reached under one of `set`.
pub open spec fn alias_reaches(t: TargetSurface, inner: Seq<char>, set: Seq<Seq<char>>) -> bool {
    exists|k: int| 0 <= k < t.pick_pairs@.len() && #[trigger] pair_alias_hit(t, t.pick_pairs@[k]@, inner, set)
}

/// The target declares name `n`.
pub open spec fn declared(t: TargetSurface, n: Seq<char>) -> bool {
    first_value(table_view(t.decl_kinds@), n) is Some
}

/// A rendered pair `root::name` exists for one of the roots.
pub open spec fn root_pair_rendered(t: TargetSurface, roots: Seq<Seq<char>>, n: Seq<char>) -> bool {
    exists|k: int| 0 <= k < roots.len() && strings_view(t.pick_pairs@).contains(#[trigger] roots[k] + "::"@ + n)
}

/// One of the roots names a foreign re-exported namespace.
pub open spec fn root_foreign(t: TargetSurface, roots: Seq<Seq<char>>) -> bool {
    exists|k: int| 0 <= k < roots.len() && strings_view(t.foreign_ns@).contains(underscored(#[trigger] roots[k]))
}

/// The tier of a demanded name: an undeclared module or crate binding is a
/// namespace import; a name the bundle covers, or presents as a rendered
/// `root::name` pair (directly or under an alternate outer), is a hit; a
/// name only a foreign re-export serves is a foreign re-export; else a
/// miss.
pub open spec fn name_tier(t: TargetSurface, d: DemandedName) -> NameTier {
    let n = d.name@;
    let roots = strings_view(d.roots@);
    if !declared(t, n) && (strings_view(t.mods@).contains(n) || strings_view(t.target_crates@).contains(underscored(n))) {
        NameTier::ModNamespace
    } else if strings_view(t.covered@).contains(n) || root_pair_rendered(t, roots, n) || alias_reaches(t, n, roots) {
        NameTier::Hit
    } else if strings_view(t.foreign_leafs@).contains(n) || root_foreign(t, roots) {
        NameTier::ForeignReexport
    } else {
        NameTier::Miss
    }
}

/// The tier of a demanded pair `outer::inner`: a rendered pair (directly or
/// under an alternate outer) is exact; a covered outer, or a target crate
/// outer with a covered inner, is name level; a foreign outer is a foreign
/// re-export; else a miss.
pub open spec fn pair_tier(t: TargetSurface, p: Seq<char>) -> PairTier {
    let o = pair_outer(p);
    let i = pair_inner(p);
    if strings_view(t.pick_pairs@).contains(p) || alias_reaches(t, i, seq![o]) {
        PairTier::Exact
    } else if strings_view(t.covered@).contains(o) {
        PairTier::NameLevel
    } else if strings_view(t.target_crates@).contains(underscored(o)) && strings_view(t.covered@).contains(i) {
        PairTier::NameLevel
    } else if strings_view(t.foreign_ns@).contains(underscored(o)) || strings_view(t.foreign_leafs@).contains(o) {
        PairTier::ForeignReexport
    } else {
        PairTier::Miss
    }
}

/// The declared kinds of a name, or `unknown` when it has none.
pub open spec fn kinds_of(t: TargetSurface, n: Seq<char>) -> Seq<Seq<char>> {
    match first_value(table_view(t.decl_kinds@), n) {
        Some(ks) => if ks.len() > 0 {
            ks
        } else {
            seq!["unknown"@]
        },
        None => seq!["unknown"@],
    }
}

/// The record of a demanded name: name, kinds, streams and sites.
pub open spec fn name_record(t: TargetSurface, d: DemandedName) -> (Seq<char>, Seq<Seq<char>>, Seq<Seq<char>>, nat) {
    (d.name@, kinds_of(t, d.name@), strings_view(d.srcs@), d.sites as nat)
}

/// The value of a demand record.
pub open spec fn record_view(r: DemandRecord) -> (Seq<char>, Seq<Seq<char>>, Seq<Seq<char>>, nat) {
    (r.name@, strings_view(r.kinds@), strings_view(r.srcs@), r.sites as nat)
}

/// The values of a list of demand records.
pub open spec fn records_view(v: Seq<DemandRecord>) -> Seq<(Seq<char>, Seq<Seq<char>>, Seq<Seq<char>>, nat)> {
    v.map_values(|r: DemandRecord| record_view(r))
}

/// The records of the demanded names of one tier, in order.
pub open spec fn names_in(t: TargetSurface, ds: Seq<DemandedName>, tier: NameTier) -> Seq<
    (Seq<char>, Seq<Seq<char>>, Seq<Seq<char>>, nat),
>
    decreases ds.len(),
{
    if ds.len() == 0 {
        Seq::empty()
    } else if name_tier(t, ds.last()) == tier {
        names_in(t, ds.drop_last(), tier).push(name_record(t, ds.last()))
    } else {
        names_in(t, ds.drop_last(), tier)
    }
}

/// The demanded pairs of one tier, in order.
pub open spec fn pairs_in(t: TargetSurface, ps: Seq<Seq<char>>, tier: PairTier) -> Seq<Seq<char>>
    decreases ps.len(),
{
    if ps.len() == 0 {
        Seq::empty()
    } else if pair_tier(t, ps.last()) == tier {
        pairs_in(t, ps.drop_last(), tier).push(ps.last())
    } else {
        pairs_in(t, ps.drop_last(), tier)
    }
}

fn table_pos(v: &Vec<(String, Vec<String>)>, key: &str) -> (r: Option<usize>)
    ensures
        r matches Some(i) ==> i < v@.len() && first_value(table_view(v@), key@) == Some(strings_view(v@[i as int].1@)),
        r is None ==> first_value(table_view(v@), key@) is None,
{
    let ghost s = table_view(v@);
    let mut i: usize = 0;
    while i < v.len()
        invariant
            i <= v@.len(),
            s == table_view(v@),
            first_value(s.take(i as int), key@) is None,
        decreases v@.len() - i,
    {
        proof {
            lemma_first_value_step(s, i as int, key@);
        }
        if str_eq(v[i].0.as_str(), key) {
            proof {
                lemma_first_value_prefix(s, i + 1, key@);
            }
            return Some(i);
        }
        i = i + 1;
    }
    assert(s.take(i as int) =~= s);
    None
}

fn penultimate_is(p: &str, o: &str) -> (r: bool)
    ensures
        r == (penultimate(p@) == Some(o@)),
{
    let cs = chars_of(p);
    let sep = chars_of("::");
    proof {
        reveal_strlit("::");
    }
    let segs = split_exec(&cs, &sep);
    let ghost sv = segs@.map_values(|v: Vec<char>| v@);
    if segs.len() >= 2 {
        let seg = string_of(&segs[segs.len() - 2]);
        assert(seg@ == sv[sv.len() - 2]);
        str_eq(seg.as_str(), o)
    } else {
        false
    }
}

fn outer_listed_exec(t: &TargetSurface, rp: &str, o: &str) -> (r: bool)
    ensures
        r == outer_listed(*t, rp@, o@),
{
    let aliased = match table_pos(&t.pair_aliases, rp) {
        Some(q) => strings_contain(&t.pair_aliases[q].1, o),
        None => false,
    };
    if aliased {
        return true;
    }
    let inner = match split_once_str(rp, "::") {
        Some((_, i)) => i,
        None => String::new(),
    };
    assert(inner@ == pair_inner(rp@));
    match table_pos(&t.overlay_fn_paths, inner.as_str()) {
        Some(q) => {
            let ps = &t.overlay_fn_paths[q].1;
            let ghost pv = strings_view(ps@);
            let mut j: usize = 0;
            while j < ps.len()
                invariant
                    j <= ps@.len(),
                    pv == strings_view(ps@),
                    first_value(table_view(t.overlay_fn_paths@), pair_inner(rp@)) == Some(pv),
                    forall|jj: int| 0 <= jj < j ==> penultimate(#[trigger] pv[jj]) != Some(o@),
                decreases ps@.len() - j,
            {
                assert(pv[j as int] == ps@[j as int]@);
                if penultimate_is(ps[j].as_str(), o) {
                    return true;
                }
                j = j + 1;
            }
            false
        },
        None => false,
    }
}

fn pair_alias_hit_exec(t: &TargetSurface, rp: &str, inner: &str, set: &Vec<String>) -> (r: bool)
    ensures
        r == pair_alias_hit(*t, rp@, inner@, strings_view(set@)),
{
    let parts = split_once_str(rp, "::");
    match &parts {
        Some((_, i2)) => {
            if !str_eq(i2.as_str(), inner) {
                return false;
            }
        },
        None => return false,
    }
    let ghost sv = strings_view(set@);
    let mut j: usize = 0;
    while j < set.len()
        invariant
            j <= set@.len(),
            sv == strings_view(set@),
            split_once(rp@, "::"@) is Some,
            pair_inner(rp@) == inner@,
            forall|jj: int| 0 <= jj < j ==> !#[trigger] outer_listed(*t, rp@, sv[jj]),
        decreases set@.len() - j,
    {
        assert(sv[j as int] == set@[j as int]@);
        if outer_listed_exec(t, rp, set[j].as_str()) {
            return true;
        }
        j = j + 1;
    }
    false
}

fn alias_reaches_exec(t: &TargetSurface, inner: &str, set: &Vec<String>) -> (r: bool)
    ensures
        r == alias_reaches(*t, inner@, strings_view(set@)),
{
    let mut k: usize = 0;
    while k < t.pick_pairs.len()
        invariant
            k <= t.pick_pairs@.len(),
            forall|kk: int| 0 <= kk < k ==> !#[trigger] pair_alias_hit(*t, t.pick_pairs@[kk]@, inner@, strings_view(set@)),
        decreases t.pick_pairs@.len() - k,
    {
        if pair_alias_hit_exec(t, t.pick_pairs[k].as_str(), inner, set) {
            return true;
        }
        k = k + 1;
    }
    false
}

fn root_pair_rendered_exec(t: &TargetSurface, roots: &Vec<String>, n: &str) -> (r: bool)
    ensures
        r == root_pair_rendered(*t, strings_view(roots@), n@),
{
    let ghost rv = strings_view(roots@);
    let mut k: usize = 0;
    while k < roots.len()
        invariant
            k <= roots@.len(),
            rv == strings_view(roots@),
            forall|kk: int| 0 <= kk < k ==> !strings_view(t.pick_pairs@).contains(#[trigger] rv[kk] + "::"@ + n@),
        decreases roots@.len() - k,
    {
        let mut key = roots[k].clone();
        push_str(&mut key, "::");
        push_str(&mut key, n);
        assert(key@ == rv[k as int] + "::"@ + n@);
        if strings_contain(&t.pick_pairs, key.as_str()) {
            return true;
        }
        k = k + 1;
    }
    false
}

fn root_foreign_exec(t: &TargetSurface, roots: &Vec<String>) -> (r: bool)
    ensures
        r == root_foreign(*t, strings_view(roots@)),
{
    let ghost rv = strings_view(roots@);
    let mut k: usize = 0;
    while k < roots.len()
        invariant
            k <= roots@.len(),
            rv == strings_view(roots@),
            forall|kk: int| 0 <= kk < k ==> !strings_view(t.foreign_ns@).contains(underscored(#[trigger] rv[kk])),
        decreases roots@.len() - k,
    {
        let norm = underscored_exec(roots[k].as_str());
        assert(norm@ == underscored(rv[k as int]));
        if strings_contain(&t.foreign_ns, norm.as_str()) {
            return true;
        }
        k = k + 1;
    }
    false
}

/// The tier of one demanded name.
pub fn classify_name(t: &TargetSurface, d: &DemandedName) -> (r: NameTier)
    ensures
        r == name_tier(*t, *d),
{
    let n = d.name.as_str();
    let declared_here = table_pos(&t.decl_kinds, n).is_some();
    if !declared_here && (strings_contain(&t.mods, n) || strings_contain(
        &t.target_crates,
        underscored_exec(n).as_str(),
    )) {
        NameTier::ModNamespace
    } else if strings_contain(&t.covered, n) || root_pair_rendered_exec(t, &d.roots, n) || alias_reaches_exec(
        t,
        n,
        &d.roots,
    ) {
        NameTier::Hit
    } else if strings_contain(&t.foreign_leafs, n) || root_foreign_exec(t, &d.roots) {
        NameTier::ForeignReexport
    } else {
        NameTier::Miss
    }
}

/// The tier of one demanded pair key.
pub fn classify_pair(t: &TargetSurface, p: &str) -> (r: PairTier)
    ensures
        r == pair_tier(*t, p@),
{
    let (o, i) = match split_once_str(p, "::") {
        Some((o, i)) => (o, i),
        None => (p.to_string(), String::new()),
    };
    assert(o@ == pair_outer(p@) && i@ == pair_inner(p@));
    let mut single: Vec<String> = Vec::new();
    single.push(o.clone());
    assert(strings_view(single@) =~= seq![o@]);
    if strings_contain(&t.pick_pairs, p) || alias_reaches_exec(t, i.as_str(), &single) {
        PairTier::Exact
    } else if strings_contain(&t.covered, o.as_str()) {
        PairTier::NameLevel
    } else if strings_contain(&t.target_crates, underscored_exec(o.as_str()).as_str()) && strings_contain(
        &t.covered,
        i.as_str(),
    ) {
        PairTier::NameLevel
    } else if strings_contain(&t.foreign_ns, underscored_exec(o.as_str()).as_str()) || strings_contain(
        &t.foreign_leafs,
        o.as_str(),
    ) {
        PairTier::ForeignReexport
    } else {
        PairTier::Miss
    }
}

/// The name of a pick's pattern, when the pick parses.
pub open spec fn pick_name(w: Seq<char>) -> Option<Seq<char>> {
    match PatternView::from_wire(w) {
        Some(p) => Some(p.name()),
        None => None,
    }
}

/// The pair a pick renders: its name, when it is an `outer::inner` pair.
pub open spec fn pick_pair(w: Seq<char>) -> Option<Seq<char>> {
    match pick_name(w) {
        Some(n) => if split_once(n, "::"@) is Some {
            Some(n)
        } else {
            None
        },
        None => None,
    }
}

/// The name a pick covers: a pair's outer (unless `_`), else its name.
pub open spec fn pick_covers(w: Seq<char>) -> Option<Seq<char>> {
    match pick_name(w) {
        Some(n) => match split_once(n, "::"@) {
            Some((o, _)) => if o != "_"@ {
                Some(o)
            } else {
                None
            },
            None => Some(n),
        },
        None => None,
    }
}

/// The name a carried pattern key covers: the outer of its name.
pub open spec fn carry_covers(k: Seq<char>) -> Option<Seq<char>> {
    match pick_name(k) {
        Some(n) => Some(pair_outer(n)),
        None => None,
    }
}

/// Some pick renders the pair `x`.
pub open spec fn picks_render(picks: Seq<Seq<char>>, x: Seq<char>) -> bool {
    exists|k: int| 0 <= k < picks.len() && pick_pair(#[trigger] picks[k]) == Some(x)
}

/// Some pick covers the name `x`.
pub open spec fn picks_cover(picks: Seq<Seq<char>>, x: Seq<char>) -> bool {
    exists|k: int| 0 <= k < picks.len() && pick_covers(#[trigger] picks[k]) == Some(x)
}

/// Some carry covers the name `x`: by its pattern key, or by one of its
/// non-empty carried names.
pub open spec fn carries_cover(carries: Seq<(Seq<char>, Seq<Seq<char>>)>, x: Seq<char>) -> bool {
    (exists|j: int| 0 <= j < carries.len() && carry_covers(#[trigger] carries[j].0) == Some(x)) || (exists|j: int, e: int|
        0 <= j < carries.len() && 0 <= e < carries[j].1.len() && x.len() > 0 && #[trigger] carries[j].1[e] == x)
}

/// What the target's bundle covers: the names its picks and carries
/// present, and the pairs its picks render.
#[derive(Debug, Clone)]
pub struct BundleCoverage {
    pub covered: Vec<String>,
    pub pick_pairs: Vec<String>,
}

/// The coverage of the target's bundle: each parsed pick covers its name
/// (a pair its outer, unless `_`) and renders its pair; each carry covers
/// the outer of its pattern key and each of its non-empty carried names.
pub fn bundle_coverage(picks: &Vec<String>, carries: &Vec<(String, Vec<String>)>) -> (r: BundleCoverage)
    ensures
        forall|x: Seq<char>| #[trigger] strings_view(r.pick_pairs@).contains(x) <==> picks_render(strings_view(picks@), x),
        forall|x: Seq<char>|
            #[trigger] strings_view(r.covered@).contains(x) <==> (picks_cover(strings_view(picks@), x) || carries_cover(
                table_view(carries@),
                x,
            )),
{
    let ghost pv = strings_view(picks@);
    let ghost cv = table_view(carries@);
    let mut covered: Vec<String> = Vec::new();
    let mut pairs: Vec<String> = Vec::new();
    let mut i: usize = 0;
    while i < picks.len()
        invariant
            i <= picks@.len(),
            pv == strings_view(picks@),
            forall|x: Seq<char>| #[trigger] strings_view(pairs@).contains(x) <==> picks_render(pv.take(i as int), x),
            forall|x: Seq<char>| #[trigger] strings_view(covered@).contains(x) <==> picks_cover(pv.take(i as int), x),
        decreases picks@.len() - i,
    {
        let ghost pre = pv.take(i as int);
        let ghost post = pv.take(i + 1);
        assert(post =~= pre.push(pv[i as int]));
        assert(pv[i as int] == picks@[i as int]@);
        let ghost before_pairs = strings_view(pairs@);
        let ghost before_cov = strings_view(covered@);
        match Pattern::from_wire(picks[i].as_str()) {
            Some(p) => {
                let n = p.name();
                match split_once_str(n.as_str(), "::") {
                    Some((o, _)) => {
                        push_string(&mut pairs, n.clone());
                        if !str_eq(o.as_str(), "_") {
                            push_string(&mut covered, o);
                        }
                    },
                    None => {
                        push_string(&mut covered, n);
                    },
                }
            },
            None => {},
        }
        proof {
            reveal_strlit("_");
            assert forall|x: Seq<char>| #[trigger] strings_view(pairs@).contains(x) <==> picks_render(post, x) by {
                if picks_render(post, x) {
                    let k = choose|k: int| 0 <= k < post.len() && pick_pair(#[trigger] post[k]) == Some(x);
                    if k < pre.len() {
                        assert(pre[k] == post[k]);
                        assert(picks_render(pre, x));
                        assert(before_pairs.contains(x));
                        let w = choose|w: int| 0 <= w < before_pairs.len() && before_pairs[w] == x;
                        assert(strings_view(pairs@)[w] == x);
                    } else {
                        assert(strings_view(pairs@).last() == x);
                    }
                }
                if strings_view(pairs@).contains(x) {
                    let w = choose|w: int| 0 <= w < strings_view(pairs@).len() && strings_view(pairs@)[w] == x;
                    if w < before_pairs.len() {
                        assert(before_pairs[w] == x);
                        assert(before_pairs.contains(x));
                        let k = choose|k: int| 0 <= k < pre.len() && pick_pair(#[trigger] pre[k]) == Some(x);
                        assert(post[k] == pre[k]);
                    } else {
                        assert(pick_pair(post[i as int]) == Some(x));
                    }
                }
            }
            assert forall|x: Seq<char>| #[trigger] strings_view(covered@).contains(x) <==> picks_cover(post, x) by {
                if picks_cover(post, x) {
                    let k = choose|k: int| 0 <= k < post.len() && pick_covers(#[trigger] post[k]) == Some(x);
                    if k < pre.len() {
                        assert(pre[k] == post[k]);
                        assert(picks_cover(pre, x));
                        assert(before_cov.contains(x));
                        let w = choose|w: int| 0 <= w < before_cov.len() && before_cov[w] == x;
                        assert(strings_view(covered@)[w] == x);
                    } else {
                        assert(strings_view(covered@).last() == x);
                    }
                }
                if strings_view(covered@).contains(x) {
                    let w = choose|w: int| 0 <= w < strings_view(covered@).len() && strings_view(covered@)[w] == x;
                    if w < before_cov.len() {
                        assert(before_cov[w] == x);
                        assert(before_cov.contains(x));
                        let k = choose|k: int| 0 <= k < pre.len() && pick_covers(#[trigger] pre[k]) == Some(x);
                        assert(post[k] == pre[k]);
                    } else {
                        assert(pick_covers(post[i as int]) == Some(x));
                    }
                }
            }
        }
        i = i + 1;
    }
    assert(pv.take(i as int) =~= pv);
    let ghost after_picks = strings_view(covered@);
    let mut j: usize = 0;
    while j < carries.len()
        invariant
            j <= carries@.len(),
            pv == strings_view(picks@),
            cv == table_view(carries@),
            forall|x: Seq<char>| #[trigger] strings_view(pairs@).contains(x) <==> picks_render(pv, x),
            forall|x: Seq<char>| #[trigger] strings_view(covered@).contains(x) <==> (picks_cover(pv, x) || carries_cover(cv.take(j as int), x)),
        decreases carries@.len() - j,
    {
        let ghost pre = cv.take(j as int);
        let ghost post = cv.take(j + 1);
        assert(post =~= pre.push(cv[j as int]));
        let ghost start = strings_view(covered@);
        match Pattern::from_wire(carries[j].0.as_str()) {
            Some(p) => {
                let n = p.name();
                let o = match split_once_str(n.as_str(), "::") {
                    Some((o, _)) => o,
                    None => n,
                };
                push_string(&mut covered, o);
            },
            None => {},
        }
        let ghost mid = strings_view(covered@);
        let names = &carries[j].1;
        let ghost nv = strings_view(names@);
        assert(cv[j as int] == (carries@[j as int].0@, nv));
        let mut e: usize = 0;
        while e < names.len()
            invariant
                e <= names@.len(),
                nv == strings_view(names@),
                forall|x: Seq<char>| #[trigger] strings_view(covered@).contains(x) <==> (mid.contains(x) || (x.len() > 0
                    && exists|ee: int| 0 <= ee < e && nv[ee] == x)),
            decreases names@.len() - e,
        {
            let ghost b = strings_view(covered@);
            if !names[e].as_str().is_empty() {
                push_string(&mut covered, names[e].clone());
            }
            proof {
                assert(nv[e as int] == names@[e as int]@);
                assert forall|x: Seq<char>| #[trigger] strings_view(covered@).contains(x) <==> (mid.contains(x) || (x.len()
                    > 0 && exists|ee: int| 0 <= ee < e + 1 && nv[ee] == x)) by {
                    if strings_view(covered@).contains(x) {
                        let w = choose|w: int| 0 <= w < strings_view(covered@).len() && strings_view(covered@)[w] == x;
                        if w < b.len() {
                            assert(b[w] == x);
                            assert(b.contains(x));
                        } else {
                            assert(nv[e as int] == x);
                        }
                    }
                    if mid.contains(x) || (x.len() > 0 && exists|ee: int| 0 <= ee < e + 1 && nv[ee] == x) {
                        if mid.contains(x) || (x.len() > 0 && exists|ee: int| 0 <= ee < e && nv[ee] == x) {
                            assert(b.contains(x));
                            let w = choose|w: int| 0 <= w < b.len() && b[w] == x;
                            assert(strings_view(covered@)[w] == x);
                        } else {
                            assert(nv[e as int] == x);
                            assert(strings_view(covered@).last() == x);
                        }
                    }
                }
            }
            e = e + 1;
        }
        proof {
            assert forall|x: Seq<char>| #[trigger] strings_view(covered@).contains(x) <==> (picks_cover(pv, x) || carries_cover(
                post,
                x,
            )) by {
                let key_hit = carry_covers(cv[j as int].0) == Some(x);
                assert(mid.contains(x) <==> (start.contains(x) || key_hit)) by {
                    if mid.contains(x) {
                        let w = choose|w: int| 0 <= w < mid.len() && mid[w] == x;
                        if w < start.len() {
                            assert(start[w] == x);
                        }
                    }
                    if start.contains(x) {
                        let w = choose|w: int| 0 <= w < start.len() && start[w] == x;
                        assert(mid[w] == x);
                    }
                    if key_hit {
                        assert(mid.last() == x);
                    }
                }
                let name_hit = x.len() > 0 && exists|ee: int| 0 <= ee < nv.len() && nv[ee] == x;
                if carries_cover(post, x) {
                    if exists|jj: int| 0 <= jj < post.len() && carry_covers(#[trigger] post[jj].0) == Some(x) {
                        let jj = choose|jj: int| 0 <= jj < post.len() && carry_covers(#[trigger] post[jj].0) == Some(x);
                        if jj < pre.len() {
                            assert(pre[jj] == post[jj]);
                            assert(carries_cover(pre, x));
                        }
                    } else {
                        let (jj, ee) = choose|jj: int, ee: int|
                            0 <= jj < post.len() && 0 <= ee < post[jj].1.len() && x.len() > 0 && #[trigger] post[jj].1[ee] == x;
                        if jj < pre.len() {
                            assert(pre[jj] == post[jj]);
                            assert(pre[jj].1[ee] == x);
                            assert(carries_cover(pre, x));
                        } else {
                            assert(nv[ee] == x);
                        }
                    }
                }
                if carries_cover(pre, x) {
                    if exists|jj: int| 0 <= jj < pre.len() && carry_covers(#[trigger] pre[jj].0) == Some(x) {
                        let jj = choose|jj: int| 0 <= jj < pre.len() && carry_covers(#[trigger] pre[jj].0) == Some(x);
                        assert(post[jj] == pre[jj]);
                    } else {
                        let (jj, ee) = choose|jj: int, ee: int|
                            0 <= jj < pre.len() && 0 <= ee < pre[jj].1.len() && x.len() > 0 && #[trigger] pre[jj].1[ee] == x;
                        assert(post[jj] == pre[jj]);
                        assert(post[jj].1[ee] == x);
                    }
                }
                if key_hit {
                    assert(post[j as int] == cv[j as int]);
                }
                if name_hit {
                    let ee = choose|ee: int| 0 <= ee < nv.len() && nv[ee] == x;
                    assert(post[j as int].1[ee] == x);
                }
            }
        }
        j = j + 1;
    }
    assert(cv.take(j as int) =~= cv);
    BundleCoverage { covered, pick_pairs: pairs }
}

fn copy_strings(v: &Vec<String>) -> (r: Vec<String>)
    ensures
        strings_view(r@) == strings_view(v@),
{
    let mut r: Vec<String> = Vec::new();
    let mut i: usize = 0;
    while i < v.len()
        invariant
            i <= v@.len(),
            strings_view(r@) == strings_view(v@).take(i as int),
        decreases v@.len() - i,
    {
        let ghost before = strings_view(r@);
        r.push(v[i].clone());
        assert(strings_view(r@) =~= before.push(v@[i as int]@));
        assert(strings_view(v@).take(i + 1) =~= strings_view(v@).take(i as int).push(v@[i as int]@));
        i = i + 1;
    }
    assert(strings_view(v@).take(i as int) =~= strings_view(v@));
    r
}

fn name_record_exec(t: &TargetSurface, d: &DemandedName) -> (r: DemandRecord)
    ensures
        record_view(r) == name_record(*t, *d),
{
    proof {
        reveal_strlit("unknown");
    }
    let kinds = match table_pos(&t.decl_kinds, d.name.as_str()) {
        Some(q) => {
            if t.decl_kinds[q].1.len() > 0 {
                copy_strings(&t.decl_kinds[q].1)
            } else {
                let mut u: Vec<String> = Vec::new();
                u.push("unknown".to_string());
                assert(strings_view(u@) =~= seq!["unknown"@]);
                u
            }
        },
        None => {
            let mut u: Vec<String> = Vec::new();
            u.push("unknown".to_string());
            assert(strings_view(u@) =~= seq!["unknown"@]);
            u
        },
    };
    DemandRecord { name: d.name.clone(), kinds, srcs: copy_strings(&d.srcs), sites: d.sites }
}

fn push_record(v: &mut Vec<DemandRecord>, r: DemandRecord)
    ensures
        records_view(final(v)@) == records_view(old(v)@).push(record_view(r)),
{
    let ghost before = records_view(v@);
    let ghost rv = record_view(r);
    v.push(r);
    assert(records_view(v@) =~= before.push(rv));
}

fn push_string(v: &mut Vec<String>, s: String)
    ensures
        strings_view(final(v)@) == strings_view(old(v)@).push(s@),
{
    let ghost before = strings_view(v@);
    let ghost sv = s@;
    v.push(s);
    assert(strings_view(v@) =~= before.push(sv));
}

/// The value of a list of site counts.
pub open spec fn sites_view(v: Seq<(String, usize)>) -> Seq<(Seq<char>, nat)> {
    v.map_values(|e: (String, usize)| (e.0@, e.1 as nat))
}

/// Classifies a consumer's demand against a target: each demanded name
/// (with its kinds, or `unknown`) goes to the hits, the namespace imports,
/// the foreign re-exports or the misses; each demanded pair to the exact,
/// name-level, foreign or missed pairs; the summary counts them, and the
/// pair site counts and glob imports are carried through.
pub fn classify_demand(
    t: &TargetSurface,
    names: &Vec<DemandedName>,
    pairs: &Vec<String>,
    pair_sites: Vec<(String, usize)>,
    globs: Vec<String>,
) -> (r: DemandReport)
    ensures
        records_view(r.hits@) == names_in(*t, names@, NameTier::Hit),
        records_view(r.mod_namespace@) == names_in(*t, names@, NameTier::ModNamespace),
        records_view(r.summary.foreign_reexports@) == names_in(*t, names@, NameTier::ForeignReexport),
        records_view(r.summary.misses@) == names_in(*t, names@, NameTier::Miss),
        r.summary.demanded_names == names@.len(),
        r.summary.hits == r.hits@.len(),
        r.summary.miss_count == r.summary.misses@.len(),
        r.summary.mod_namespace_count == r.mod_namespace@.len(),
        r.summary.foreign_reexport_count == r.summary.foreign_reexports@.len(),
        r.summary.pairs_total == pairs@.len(),
        r.summary.pair_exact == pairs_in(*t, strings_view(pairs@), PairTier::Exact).len(),
        strings_view(r.pair_name_level@) == pairs_in(*t, strings_view(pairs@), PairTier::NameLevel),
        r.summary.pair_name_level == r.pair_name_level@.len(),
        strings_view(r.summary.pair_foreign@) == pairs_in(*t, strings_view(pairs@), PairTier::ForeignReexport),
        strings_view(r.summary.pair_misses@) == pairs_in(*t, strings_view(pairs@), PairTier::Miss),
        r.summary.pair_miss_count == r.summary.pair_misses@.len(),
        sites_view(r.pair_sites@) == sites_view(pair_sites@),
        strings_view(r.summary.globs@) == strings_view(globs@),
{
    let mut hits: Vec<DemandRecord> = Vec::new();
    let mut mod_ns: Vec<DemandRecord> = Vec::new();
    let mut foreign: Vec<DemandRecord> = Vec::new();
    let mut misses: Vec<DemandRecord> = Vec::new();
    let mut i: usize = 0;
    while i < names.len()
        invariant
            i <= names@.len(),
            records_view(hits@) == names_in(*t, names@.take(i as int), NameTier::Hit),
            records_view(mod_ns@) == names_in(*t, names@.take(i as int), NameTier::ModNamespace),
            records_view(foreign@) == names_in(*t, names@.take(i as int), NameTier::ForeignReexport),
            records_view(misses@) == names_in(*t, names@.take(i as int), NameTier::Miss),
        decreases names@.len() - i,
    {
        proof {
            assert(names@.take(i + 1).drop_last() =~= names@.take(i as int));
            assert(names@.take(i + 1).last() == names@[i as int]);
        }
        let d = &names[i];
        let rec = name_record_exec(t, d);
        match classify_name(t, d) {
            NameTier::ModNamespace => push_record(&mut mod_ns, rec),
            NameTier::Hit => push_record(&mut hits, rec),
            NameTier::ForeignReexport => push_record(&mut foreign, rec),
            NameTier::Miss => push_record(&mut misses, rec),
        }
        i = i + 1;
    }
    assert(names@.take(i as int) =~= names@);
    let ghost pv = strings_view(pairs@);
    let mut exact: usize = 0;
    let mut name_level: Vec<String> = Vec::new();
    let mut pair_foreign: Vec<String> = Vec::new();
    let mut pair_misses: Vec<String> = Vec::new();
    let mut k: usize = 0;
    while k < pairs.len()
        invariant
            k <= pairs@.len(),
            pv == strings_view(pairs@),
            exact == pairs_in(*t, pv.take(k as int), PairTier::Exact).len(),
            exact <= k,
            strings_view(name_level@) == pairs_in(*t, pv.take(k as int), PairTier::NameLevel),
            strings_view(pair_foreign@) == pairs_in(*t, pv.take(k as int), PairTier::ForeignReexport),
            strings_view(pair_misses@) == pairs_in(*t, pv.take(k as int), PairTier::Miss),
        decreases pairs@.len() - k,
    {
        proof {
            assert(pv.take(k + 1).drop_last() =~= pv.take(k as int));
            assert(pv.take(k + 1).last() == pv[k as int]);
        }
        let p = &pairs[k];
        match classify_pair(t, p.as_str()) {
            PairTier::Exact => {
                exact = exact + 1;
            },
            PairTier::NameLevel => push_string(&mut name_level, p.clone()),
            PairTier::ForeignReexport => push_string(&mut pair_foreign, p.clone()),
            PairTier::Miss => push_string(&mut pair_misses, p.clone()),
        }
        k = k + 1;
    }
    assert(pv.take(k as int) =~= pv);
    let summary = DemandSummary {
        demanded_names: names.len(),
        hits: hits.len(),
        miss_count: misses.len(),
        misses,
        mod_namespace_count: mod_ns.len(),
        foreign_reexport_count: foreign.len(),
        foreign_reexports: foreign,
        pairs_total: pairs.len(),
        pair_exact: exact,
        pair_name_level: name_level.len(),
        pair_miss_count: pair_misses.len(),
        pair_misses,
        pair_foreign,
        globs,
    };
    DemandReport { summary, hits, mod_namespace: mod_ns, pair_name_level: name_level, pair_sites }
}

proof fn lemma_name_tiers_partition(t: TargetSurface, ds: Seq<DemandedName>)
    ensures
        names_in(t, ds, NameTier::Hit).len() + names_in(t, ds, NameTier::ModNamespace).len() + names_in(
            t,
            ds,
            NameTier::ForeignReexport,
        ).len() + names_in(t, ds, NameTier::Miss).len() == ds.len(),
    decreases ds.len(),
{
    if ds.len() > 0 {
        lemma_name_tiers_partition(t, ds.drop_last());
    }
}

proof fn lemma_pair_tiers_partition(t: TargetSurface, ps: Seq<Seq<char>>)
    ensures
        pairs_in(t, ps, PairTier::Exact).len() + pairs_in(t, ps, PairTier::NameLevel).len() + pairs_in(
            t,
            ps,
            PairTier::ForeignReexport,
        ).len() + pairs_in(t, ps, PairTier::Miss).len() == ps.len(),
    decreases ps.len(),
{
    if ps.len() > 0 {
        lemma_pair_tiers_partition(t, ps.drop_last());
    }
}

/// Every demanded name lands in exactly one of the four name tiers, and
/// every demanded pair in exactly one of the four pair tiers: the tier
/// counts add up to the demanded totals.
pub proof fn lemma_demand_tiers_partition(t: TargetSurface, names: Seq<DemandedName>, pairs: Seq<Seq<char>>)
    ensures
        names_in(t, names, NameTier::Hit).len() + names_in(t, names, NameTier::ModNamespace).len() + names_in(
            t,
            names,
            NameTier::ForeignReexport,
        ).len() + names_in(t, names, NameTier::Miss).len() == names.len(),
        pairs_in(t, pairs, PairTier::Exact).len() + pairs_in(t, pairs, PairTier::NameLevel).len() + pairs_in(
            t,
            pairs,
            PairTier::ForeignReexport,
        ).len() + pairs_in(t, pairs, PairTier::Miss).len() == pairs.len(),
{
    lemma_name_tiers_partition(t, names);
    lemma_pair_tiers_partition(t, pairs);
}

/// Each record of a tier comes from a demanded name of that tier.
proof fn lemma_names_in_source(t: TargetSurface, ds: Seq<DemandedName>, tier: NameTier, k: int)
    requires
        0 <= k < names_in(t, ds, tier).len(),
    ensures
        exists|i: int|
            0 <= i < ds.len() && (#[trigger] ds[i]).name@ == names_in(t, ds, tier)[k].0 && name_tier(t, ds[i]) == tier,
    decreases ds.len(),
{
    let prev = names_in(t, ds.drop_last(), tier);
    if k < prev.len() {
        lemma_names_in_source(t, ds.drop_last(), tier, k);
        let i = choose|i: int|
            0 <= i < ds.drop_last().len() && (#[trigger] ds.drop_last()[i]).name@ == prev[k].0 && name_tier(
                t,
                ds.drop_last()[i],
            ) == tier;
        assert(ds[i] == ds.drop_last()[i]);
    } else {
        assert(ds[ds.len() - 1] == ds.last());
    }
}

/// When the demanded names are distinct, the name lists of two different
/// tiers share no name: a demanded name is a hit, a namespace import, a
/// foreign re-export or a miss, never two of these.
pub proof fn lemma_demand_name_tiers_disjoint(t: TargetSurface, names: Seq<DemandedName>, a: NameTier, b: NameTier)
    requires
        a != b,
        forall|i: int, j: int| 0 <= i < j < names.len() ==> (#[trigger] names[i]).name@ != (#[trigger] names[j]).name@,
    ensures
        forall|k1: int, k2: int|
            0 <= k1 < names_in(t, names, a).len() && 0 <= k2 < names_in(t, names, b).len() ==> (#[trigger] names_in(
                t,
                names,
                a,
            )[k1]).0 != (#[trigger] names_in(t, names, b)[k2]).0,
{
    assert forall|k1: int, k2: int|
        0 <= k1 < names_in(t, names, a).len() && 0 <= k2 < names_in(t, names, b).len() implies (#[trigger] names_in(
        t,
        names,
        a,
    )[k1]).0 != (#[trigger] names_in(t, names, b)[k2]).0 by {
        lemma_names_in_source(t, names, a, k1);
        lemma_names_in_source(t, names, b, k2);
        let i = choose|i: int|
            0 <= i < names.len() && (#[trigger] names[i]).name@ == names_in(t, names, a)[k1].0 && name_tier(t, names[i]) == a;
        let j = choose|j: int|
            0 <= j < names.len() && (#[trigger] names[j]).name@ == names_in(t, names, b)[k2].0 && name_tier(t, names[j]) == b;
        if names_in(t, names, a)[k1].0 == names_in(t, names, b)[k2].0 {
            if i < j {
                assert(names[i].name@ != names[j].name@);
            } else if j < i {
                assert(names[j].name@ != names[i].name@);
            }
        }
    }
}

} // verus!
