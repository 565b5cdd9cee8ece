//! The integer stages of the picker: the per-crate pools a crate's ballot
//! counts feed (patterns defined elsewhere in the workspace, or defined in
//! the crate itself), and the per-group caps that keep each group's best
//! counted patterns.

use vstd::prelude::*;
use crate::assoc::{first_value, lemma_first_value_prefix, lemma_first_value_step};
use crate::ballots::{BallotKey, key_of};
use crate::pattern::{Pattern, PatternView};
use crate::picks::PickGroup;
use crate::resolution::opt_view;
use crate::stable_order::{KeyView, SortKey, keys_view, positions_view, stable_order, stable_order_exec};
use crate::grouping::split_once_str;
use crate::resolution::strings_view;
use crate::text::{push_str, split_once, str_eq};
use crate::weights::{TargetWeights, WeightCell, cell_of, cells_view};

verus! {

/// The value of a list of counted patterns.
pub open spec fn counted_view(v: Seq<(Pattern, usize)>) -> Seq<(PatternView, nat)> {
    v.map_values(|e: (Pattern, usize)| (e.0@, e.1 as nat))
}

/// The defining crate the keys give pattern `p`.
pub open spec fn defining_of(keys: Seq<BallotKey>, p: PatternView) -> Option<Seq<char>> {
    match key_of(keys, p) {
        Some(k) => opt_view(k.defining_crate),
        None => None,
    }
}

/// A counted pattern enters crate `c`'s pool: it is not already picked
/// workspace-wide, and it is defined in `c` (the inner-crate pool) or in
/// another workspace crate (the intra-crate pool).
pub open spec fn in_pool(keys: Seq<BallotKey>, dedup: Seq<PatternView>, c: Seq<char>, origin_match: bool, p: PatternView) -> bool {
    !dedup.contains(p) && if origin_match {
        defining_of(keys, p) == Some(c)
    } else {
        defining_of(keys, p) is Some && defining_of(keys, p) != Some(c)
    }
}

/// Crate `c`'s pool of its counted patterns, in order.
pub open spec fn pool_view(
    keys: Seq<BallotKey>,
    dedup: Seq<PatternView>,
    c: Seq<char>,
    origin_match: bool,
    counts: Seq<(PatternView, nat)>,
) -> Seq<(PatternView, nat)>
    decreases counts.len(),
{
    if counts.len() == 0 {
        Seq::empty()
    } else if in_pool(keys, dedup, c, origin_match, counts.last().0) {
        pool_view(keys, dedup, c, origin_match, counts.drop_last()).push(counts.last())
    } else {
        pool_view(keys, dedup, c, origin_match, counts.drop_last())
    }
}

fn contains_pattern(v: &Vec<Pattern>, p: &Pattern) -> (r: bool)
    ensures
        r == v@.map_values(|x: Pattern| x@).contains(p@),
{
    let ghost vv = v@.map_values(|x: Pattern| x@);
    let mut i: usize = 0;
    while i < v.len()
        invariant
            i <= v@.len(),
            vv == v@.map_values(|x: Pattern| x@),
            forall|k: int| 0 <= k < i ==> vv[k] != p@,
        decreases v@.len() - i,
    {
        if v[i] == *p {
            assert(vv[i as int] == p@);
            return true;
        }
        i = i + 1;
    }
    false
}

fn defining_exec<'a>(keys: &'a Vec<BallotKey>, p: &Pattern) -> (r: Option<&'a String>)
    ensures
        match r {
            Some(s) => defining_of(keys@, p@) == Some(s@),
            None => defining_of(keys@, p@) is None,
        },
{
    let mut i: usize = keys.len();
    assert(keys@.take(keys@.len() as int) =~= keys@);
    while i > 0
        invariant
            i <= keys@.len(),
            key_of(keys@, p@) == key_of(keys@.take(i as int), p@),
        decreases i,
    {
        let ghost pre = keys@.take(i as int);
        assert(pre.drop_last() =~= keys@.take(i - 1));
        assert(pre.last() == keys@[i - 1]);
        if keys[i - 1].pattern == *p {
            return match &keys[i - 1].defining_crate {
                Some(c) => Some(c),
                None => None,
            };
        }
        i = i - 1;
    }
    assert(keys@.take(0) =~= Seq::<BallotKey>::empty());
    None
}

/// Crate `crate_name`'s pool: its counted patterns that are not in `dedup`
/// and are defined in the crate itself (`origin_match`) or in another
/// workspace crate (otherwise), in order.
pub fn per_crate_pool(
    keys: &Vec<BallotKey>,
    dedup: &Vec<Pattern>,
    crate_name: &str,
    origin_match: bool,
    counts: &Vec<(Pattern, usize)>,
) -> (r: Vec<(Pattern, usize)>)
    ensures
        counted_view(r@) == pool_view(
            keys@,
            dedup@.map_values(|x: Pattern| x@),
            crate_name@,
            origin_match,
            counted_view(counts@),
        ),
{
    let ghost dv = dedup@.map_values(|x: Pattern| x@);
    let ghost cv = counted_view(counts@);
    let mut r: Vec<(Pattern, usize)> = Vec::new();
    let mut i: usize = 0;
    while i < counts.len()
        invariant
            i <= counts@.len(),
            dv == dedup@.map_values(|x: Pattern| x@),
            cv == counted_view(counts@),
            counted_view(r@) == pool_view(keys@, dv, crate_name@, origin_match, cv.take(i as int)),
        decreases counts@.len() - i,
    {
        proof {
            assert(cv.take(i + 1).drop_last() =~= cv.take(i as int));
            assert(cv.take(i + 1).last() == cv[i as int]);
        }
        let p = &counts[i].0;
        let keep = if contains_pattern(dedup, p) {
            false
        } else {
            match defining_exec(keys, p) {
                Some(d) => if origin_match {
                    str_eq(d.as_str(), crate_name)
                } else {
                    !str_eq(d.as_str(), crate_name)
                },
                None => false,
            }
        };
        if keep {
            let ghost before = counted_view(r@);
            r.push((p.duplicate(), counts[i].1));
            assert(counted_view(r@) =~= before.push(cv[i as int]));
        }
        i = i + 1;
    }
    assert(cv.take(i as int) =~= cv);
    r
}

/// The rank key of a counted pattern: the higher count first, then the
/// pattern's wire form.
pub open spec fn rank_key(e: (PatternView, nat)) -> KeyView {
    KeyView { num: -(e.1 as int), first: e.0.wire(), second: Seq::empty(), tail: 0 }
}

/// The counted patterns in rank order.
pub open spec fn ranked(counts: Seq<(PatternView, nat)>) -> Seq<(PatternView, nat)> {
    stable_order(counts.map_values(|e: (PatternView, nat)| rank_key(e))).map_values(|i: int| counts[i])
}

/// The cap of group `g` (none listed: zero).
pub open spec fn cap_of(caps: Seq<(PickGroup, nat)>, g: PickGroup) -> nat {
    match first_value(caps, g) {
        Some(c) => c,
        None => 0,
    }
}

/// How many of the counted patterns are of group `g`.
pub open spec fn group_count(es: Seq<(PatternView, nat)>, g: PickGroup) -> nat
    decreases es.len(),
{
    if es.len() == 0 {
        0
    } else {
        group_count(es.drop_last(), g) + if es.last().0.kind() == g {
            1nat
        } else {
            0nat
        }
    }
}

/// The ranked patterns each group keeps: a pattern stays when fewer than
/// its group's cap of the same group rank before it.
pub open spec fn capped(r: Seq<(PatternView, nat)>, caps: Seq<(PickGroup, nat)>) -> Seq<(PatternView, nat)>
    decreases r.len(),
{
    if r.len() == 0 {
        Seq::empty()
    } else if group_count(r.drop_last(), r.last().0.kind()) < cap_of(caps, r.last().0.kind()) {
        capped(r.drop_last(), caps).push(r.last())
    } else {
        capped(r.drop_last(), caps)
    }
}

/// The value of a list of group caps.
pub open spec fn caps_view(v: Seq<(PickGroup, usize)>) -> Seq<(PickGroup, nat)> {
    v.map_values(|e: (PickGroup, usize)| (e.0, e.1 as nat))
}

fn group_slot(g: PickGroup) -> (r: usize)
    ensures
        r < 7,
        forall|h: PickGroup| #[trigger] slot_of(h) == r as int <==> h == g,
{
    match g {
        PickGroup::Traits => 0,
        PickGroup::TraitFunctions => 1,
        PickGroup::Structure => 2,
        PickGroup::ImplementationFunctions => 3,
        PickGroup::Derives => 4,
        PickGroup::Utilities => 5,
        PickGroup::Globals => 6,
    }
}

/// The counter slot of a group.
pub open spec fn slot_of(g: PickGroup) -> int {
    match g {
        PickGroup::Traits => 0,
        PickGroup::TraitFunctions => 1,
        PickGroup::Structure => 2,
        PickGroup::ImplementationFunctions => 3,
        PickGroup::Derives => 4,
        PickGroup::Utilities => 5,
        PickGroup::Globals => 6,
    }
}

fn cap_exec(caps: &Vec<(PickGroup, usize)>, g: PickGroup) -> (r: usize)
    ensures
        r == cap_of(caps_view(caps@), g),
{
    let ghost cv = caps_view(caps@);
    let mut i: usize = 0;
    while i < caps.len()
        invariant
            i <= caps@.len(),
            cv == caps_view(caps@),
            first_value(cv.take(i as int), g) is None,
        decreases caps@.len() - i,
    {
        proof {
            lemma_first_value_step(cv, i as int, g);
        }
        if caps[i].0 == g {
            proof {
                lemma_first_value_prefix(cv, i + 1, g);
            }
            return caps[i].1;
        }
        i = i + 1;
    }
    assert(cv.take(i as int) =~= cv);
    0
}

/// Keeps each group's best counted patterns: the patterns are ranked by
/// count (highest first), then by wire form, and a pattern stays when
/// fewer than its group's cap of the same group rank before it; the kept
/// patterns come out in rank order.
pub fn bucket_and_cap(counts: &Vec<(Pattern, usize)>, caps: &Vec<(PickGroup, usize)>) -> (r: Vec<(Pattern, usize)>)
    ensures
        counted_view(r@) == capped(ranked(counted_view(counts@)), caps_view(caps@)),
{
    let ghost cv = counted_view(counts@);
    let ghost kf = |e: (PatternView, nat)| rank_key(e);
    let mut keys: Vec<SortKey> = Vec::new();
    let mut i: usize = 0;
    while i < counts.len()
        invariant
            i <= counts@.len(),
            cv == counted_view(counts@),
            kf == (|e: (PatternView, nat)| rank_key(e)),
            keys_view(keys@) == cv.take(i as int).map_values(kf),
        decreases counts@.len() - i,
    {
        let k = SortKey { num: 0 - (counts[i].1 as i128), first: counts[i].0.to_string(), second: String::new(), tail: 0 };
        let ghost before = keys_view(keys@);
        let ghost kv = k@;
        keys.push(k);
        proof {
            assert(kv == kf(cv[i as int]));
            assert(keys_view(keys@) =~= before.push(kv));
            assert(cv.take(i + 1).map_values(kf) =~= cv.take(i as int).map_values(kf).push(kf(cv[i as int])));
        }
        i = i + 1;
    }
    assert(cv.take(i as int) =~= cv);
    let ord = stable_order_exec(&keys);
    let ghost pv = positions_view(ord@);
    let ghost rk = ranked(cv);
    assert(pv == stable_order(cv.map_values(kf)));
    let mut seen: Vec<usize> = vec![0, 0, 0, 0, 0, 0, 0];
    let mut r: Vec<(Pattern, usize)> = Vec::new();
    let mut j: usize = 0;
    while j < ord.len()
        invariant
            j <= ord@.len(),
            ord@.len() == counts@.len(),
            pv == positions_view(ord@),
            forall|k: int| 0 <= k < ord@.len() ==> ord@[k] < counts@.len(),
            cv == counted_view(counts@),
            rk == pv.map_values(|x: int| cv[x]),
            seen@.len() == 7,
            forall|g: PickGroup| #[trigger] seen@[slot_of(g)] == group_count(rk.take(j as int), g),
            forall|g: PickGroup| #[trigger] group_count(rk.take(j as int), g) <= j,
            counted_view(r@) == capped(rk.take(j as int), caps_view(caps@)),
        decreases ord@.len() - j,
    {
        let e = &counts[ord[j]];
        let g = e.0.kind();
        let s = group_slot(g);
        let cap = cap_exec(caps, g);
        proof {
            assert(pv[j as int] == ord@[j as int] as int);
            assert(rk[j as int] == cv[ord@[j as int] as int]);
            assert(rk.take(j + 1).drop_last() =~= rk.take(j as int));
            assert(rk.take(j + 1).last() == rk[j as int]);
            assert(rk[j as int].0.kind() == g);
            assert(slot_of(g) == s as int);
        }
        if seen[s] < cap {
            let ghost before = counted_view(r@);
            r.push((e.0.duplicate(), e.1));
            assert(counted_view(r@) =~= before.push(rk[j as int]));
        }
        let old_seen = seen[s];
        seen.set(s, old_seen + 1);
        proof {
            assert forall|h: PickGroup| #[trigger] seen@[slot_of(h)] == group_count(rk.take(j + 1), h) by {
                if h == g {
                    assert(slot_of(h) == s as int);
                } else {
                    assert(slot_of(h) != s as int);
                }
            }
            assert forall|h: PickGroup| #[trigger] group_count(rk.take(j + 1), h) <= j + 1 by {
                assert(group_count(rk.take(j as int), h) <= j);
            }
        }
        j = j + 1;
    }
    assert(rk.take(j as int) =~= rk);
    r
}

proof fn lemma_capped_counts(r: Seq<(PatternView, nat)>, caps: Seq<(PickGroup, nat)>, g: PickGroup)
    ensures
        group_count(capped(r, caps), g) <= group_count(r, g),
        group_count(capped(r, caps), g) <= cap_of(caps, g),
    decreases r.len(),
{
    if r.len() > 0 {
        lemma_capped_counts(r.drop_last(), caps, g);
        let e = r.last();
        if group_count(r.drop_last(), e.0.kind()) < cap_of(caps, e.0.kind()) {
            let c = capped(r.drop_last(), caps);
            assert(c.push(e).drop_last() =~= c);
        }
    }
}

/// No group keeps more counted patterns than its cap, and every kept
/// pattern is one of the counted patterns.
pub proof fn lemma_caps_respected(counts: Seq<(PatternView, nat)>, caps: Seq<(PickGroup, nat)>, g: PickGroup)
    ensures
        group_count(capped(ranked(counts), caps), g) <= cap_of(caps, g),
        group_count(capped(ranked(counts), caps), g) <= group_count(ranked(counts), g),
{
    lemma_capped_counts(ranked(counts), caps, g);
}

/// Every pattern of a crate's pool is not already picked and is defined in
/// that crate (the inner-crate pool) or in another crate (the intra-crate
/// pool).
pub proof fn lemma_pool_members(
    keys: Seq<BallotKey>,
    dedup: Seq<PatternView>,
    c: Seq<char>,
    origin_match: bool,
    counts: Seq<(PatternView, nat)>,
)
    ensures
        forall|i: int|
            0 <= i < pool_view(keys, dedup, c, origin_match, counts).len() ==> #[trigger] in_pool(
                keys,
                dedup,
                c,
                origin_match,
                pool_view(keys, dedup, c, origin_match, counts)[i].0,
            ),
    decreases counts.len(),
{
    if counts.len() > 0 {
        lemma_pool_members(keys, dedup, c, origin_match, counts.drop_last());
        let prev = pool_view(keys, dedup, c, origin_match, counts.drop_last());
        let cur = pool_view(keys, dedup, c, origin_match, counts);
        assert forall|i: int| 0 <= i < cur.len() implies #[trigger] in_pool(keys, dedup, c, origin_match, cur[i].0) by {
            if i < prev.len() {
                assert(cur[i] == prev[i]);
            }
        }
    }
}

/// The demand sites the weights record for a name.
pub open spec fn name_sites(tw: TargetWeights, n: Seq<char>) -> nat {
    cell_of(cells_view(tw.names@), n).1
}

/// The demand sites the weights record for the pair `outer::inner`.
pub open spec fn one_pair_sites(tw: TargetWeights, outer: Seq<char>, inner: Seq<char>) -> nat {
    cell_of(cells_view(tw.pairs@), outer + "::"@ + inner).1
}

/// The demand sites of the pairs `a::inner` for the alias outers `as_`.
pub open spec fn alias_sites(tw: TargetWeights, as_: Seq<Seq<char>>, inner: Seq<char>) -> nat
    decreases as_.len(),
{
    if as_.len() == 0 {
        0
    } else {
        alias_sites(tw, as_.drop_last(), inner) + one_pair_sites(tw, as_.last(), inner)
    }
}

/// The demand sites of a rendered pair: its own spelling plus every alias
/// spelling the pair aliases list for it.
pub open spec fn pair_sites(tw: TargetWeights, aliases: Seq<(Seq<char>, Seq<Seq<char>>)>, outer: Seq<char>, inner: Seq<char>) -> nat {
    one_pair_sites(tw, outer, inner) + match first_value(aliases, outer + "::"@ + inner) {
        Some(as_) => alias_sites(tw, as_, inner),
        None => 0,
    }
}

/// The consumer demand sites of a pattern: a function pair (not under `_`)
/// or a global `outer::NAME` counts its pair sites, plus its inner name's
/// sites when nothing in the workspace uses it; a type or trait counts its
/// name's sites; other patterns draw no demand.
pub open spec fn demand_sites_view(
    p: PatternView,
    unused: bool,
    tw: TargetWeights,
    aliases: Seq<(Seq<char>, Seq<Seq<char>>)>,
) -> Option<nat> {
    match p {
        PatternView::ImplementationFunctions { outer, inner } => if outer != "_"@ {
            Some(pair_sites(tw, aliases, outer, inner) + if unused {
                name_sites(tw, inner)
            } else {
                0
            })
        } else {
            None
        },
        PatternView::Globals(name) => match split_once(name, "::"@) {
            Some((o, i)) => Some(pair_sites(tw, aliases, o, i) + if unused {
                name_sites(tw, i)
            } else {
                0
            }),
            None => None,
        },
        PatternView::Structure(n) => Some(name_sites(tw, n)),
        PatternView::Traits(n) => Some(name_sites(tw, n)),
        _ => None,
    }
}

fn cell_sites(cells: &Vec<(String, WeightCell)>, k: &str) -> (r: usize)
    ensures
        r == cell_of(cells_view(cells@), k@).1,
{
    let ghost cv = cells_view(cells@);
    let mut i: usize = 0;
    while i < cells.len()
        invariant
            i <= cells@.len(),
            cv == cells_view(cells@),
            first_value(cv.take(i as int), k@) is None,
        decreases cells@.len() - i,
    {
        proof {
            lemma_first_value_step(cv, i as int, k@);
        }
        if str_eq(cells[i].0.as_str(), k) {
            proof {
                lemma_first_value_prefix(cv, i + 1, k@);
            }
            return cells[i].1.sites;
        }
        i = i + 1;
    }
    assert(cv.take(i as int) =~= cv);
    0
}

fn pair_key(outer: &str, inner: &str) -> (r: String)
    ensures
        r@ == outer@ + "::"@ + inner@,
{
    let mut k = outer.to_string();
    push_str(&mut k, "::");
    push_str(&mut k, inner);
    k
}

fn pair_sites_exec(tw: &TargetWeights, aliases: &Vec<(String, Vec<String>)>, outer: &str, inner: &str) -> (r: u128)
    ensures
        r == pair_sites(*tw, alias_table(aliases@), outer@, inner@),
        r <= 0xFFFF_FFFF_FFFF_FFFF_0000_0000_0000_0000,
{
    let key = pair_key(outer, inner);
    let mut total: u128 = cell_sites(&tw.pairs, key.as_str()) as u128;
    let ghost av = alias_table(aliases@);
    let mut i: usize = 0;
    while i < aliases.len()
        invariant
            i <= aliases@.len(),
            av == alias_table(aliases@),
            key@ == outer@ + "::"@ + inner@,
            total == one_pair_sites(*tw, outer@, inner@),
            total <= 0xFFFF_FFFF_FFFF_FFFF,
            first_value(av.take(i as int), key@) is None,
        decreases aliases@.len() - i,
    {
        proof {
            lemma_first_value_step(av, i as int, key@);
        }
        if str_eq(aliases[i].0.as_str(), key.as_str()) {
            proof {
                lemma_first_value_prefix(av, i + 1, key@);
            }
            let as_ = &aliases[i].1;
            let ghost sv = strings_view(as_@);
            assert(av[i as int].1 == sv);
            let mut k: usize = 0;
            while k < as_.len()
                invariant
                    k <= as_@.len(),
                    sv == strings_view(as_@),
                    total == one_pair_sites(*tw, outer@, inner@) + alias_sites(*tw, sv.take(k as int), inner@),
                    total <= (k + 1) * 0xFFFF_FFFF_FFFF_FFFF,
                decreases as_@.len() - k,
            {
                proof {
                    assert(sv.take(k + 1).drop_last() =~= sv.take(k as int));
                    assert(sv.take(k + 1).last() == as_@[k as int]@);
                }
                let ak = pair_key(as_[k].as_str(), inner);
                let c = cell_sites(&tw.pairs, ak.as_str());
                total = total + c as u128;
                k = k + 1;
            }
            assert(sv.take(k as int) =~= sv);
            return total;
        }
        i = i + 1;
    }
    assert(av.take(i as int) =~= av);
    total
}

/// The value of a pair-alias table.
pub open spec fn alias_table(v: Seq<(String, Vec<String>)>) -> Seq<(Seq<char>, Seq<Seq<char>>)> {
    v.map_values(|e: (String, Vec<String>)| (e.0@, strings_view(e.1@)))
}

/// The consumer demand sites of a pattern (see `demand_sites_view`);
/// `unused` says the workspace records no usage of it.
pub fn demand_sites(p: &Pattern, unused: bool, tw: &TargetWeights, aliases: &Vec<(String, Vec<String>)>) -> (r: Option<u128>)
    ensures
        match r {
            Some(n) => demand_sites_view(p@, unused, *tw, alias_table(aliases@)) == Some(n as nat),
            None => demand_sites_view(p@, unused, *tw, alias_table(aliases@)) is None,
        },
{
    match p {
        Pattern::ImplementationFunctions { outer, inner } => {
            if str_eq(outer.as_str(), "_") {
                proof {
                    reveal_strlit("_");
                }
                None
            } else {
                proof {
                    reveal_strlit("_");
                }
                let ps = pair_sites_exec(tw, aliases, outer.as_str(), inner.as_str());
                let ns: u128 = if unused {
                    cell_sites(&tw.names, inner.as_str()) as u128
                } else {
                    0
                };
                Some(ps + ns)
            }
        },
        Pattern::Globals(name) => match split_once_str(name.as_str(), "::") {
            Some((o, i)) => {
                let ps = pair_sites_exec(tw, aliases, o.as_str(), i.as_str());
                let ns: u128 = if unused {
                    cell_sites(&tw.names, i.as_str()) as u128
                } else {
                    0
                };
                Some(ps + ns)
            },
            None => None,
        },
        Pattern::Structure(n) => Some(cell_sites(&tw.names, n.as_str()) as u128),
        Pattern::Traits(n) => Some(cell_sites(&tw.names, n.as_str()) as u128),
        _ => None,
    }
}

} // verus!
