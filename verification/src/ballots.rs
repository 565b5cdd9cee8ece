//! The per-crate ballots of the picker: for each using crate, how often it
//! uses each workspace-originated pattern at sites that resolve to the
//! pattern's defining crate (trait impls, derives, type usages and macro
//! sites).

use vstd::prelude::*;
use crate::assoc::{first_value, lemma_first_value_prefix, lemma_first_value_step};
use crate::lexical::{underscored, underscored_exec};
use crate::metrics::{PatternFact, SiteContext, owned_or_empty, text_or_empty};
use crate::pattern::{Pattern, PatternView};
use crate::picks::PickGroup;
use crate::resolution::{credits_view, opt_view, resolve_site_origin, site_credits, site_origin, strings_contain, strings_view};
use crate::text::{split_once, str_eq};
use crate::grouping::split_once_str;

verus! {

/// What the ballots read of one pattern's metrics: the pattern, its
/// defining crate, and whether it names an adopted root.
#[derive(Debug, Clone)]
pub struct BallotKey {
    pub pattern: Pattern,
    pub defining_crate: Option<String>,
    pub adopted: bool,
}

/// The rules the ballots are counted under: the pattern keys, the
/// scaffolding crates (whose patterns are ineligible), and for each
/// adopted root's defining crate the crates that adopt it.
#[derive(Debug, Clone)]
pub struct BallotRules {
    pub keys: Vec<BallotKey>,
    pub scaffolding: Vec<String>,
    pub adopters: Vec<(String, Vec<String>)>,
}

/// The key of pattern `p` (the last listed for it).
pub open spec fn key_of(keys: Seq<BallotKey>, p: PatternView) -> Option<BallotKey>
    decreases keys.len(),
{
    if keys.len() == 0 {
        None
    } else if keys.last().pattern@ == p {
        Some(keys.last())
    } else {
        key_of(keys.drop_last(), p)
    }
}

/// Pattern `p` is defined in a workspace crate that is not scaffolding.
pub open spec fn workspace_originated(rules: BallotRules, p: PatternView) -> bool {
    match key_of(rules.keys@, p) {
        Some(k) => match k.defining_crate {
            Some(c) => !strings_view(rules.scaffolding@).contains(c@),
            None => false,
        },
        None => false,
    }
}

/// The value of the adopters list.
pub open spec fn adopters_view(v: Seq<(String, Vec<String>)>) -> Seq<(Seq<char>, Seq<Seq<char>>)> {
    v.map_values(|e: (String, Vec<String>)| (e.0@, strings_view(e.1@)))
}

/// A written root names an adopted root of `defining`: it is the defining
/// crate's binding or that of a crate adopting it.
pub open spec fn adopted_hit(rules: BallotRules, defining: Seq<char>, r: Seq<char>) -> bool {
    underscored(r) == defining || match first_value(adopters_view(rules.adopters@), defining) {
        Some(cs) => exists|i: int| 0 <= i < cs.len() && underscored(#[trigger] cs[i]) == underscored(r),
        None => false,
    }
}

/// A site of `name` in `file`, written with `qualifier`, used from crate
/// `using`, credits pattern `p`: the pattern has a defining crate and,
/// for an adopted root, the qualifier (or else the name's import binding
/// in the file) names the root; otherwise the site resolves to the
/// defining crate or through one of its facades.
pub open spec fn ballot_credit(
    rules: BallotRules,
    ctx: SiteContext,
    p: PatternView,
    name: Seq<char>,
    qualifier: Option<Seq<char>>,
    file: Seq<char>,
    using: Seq<char>,
) -> bool {
    match key_of(rules.keys@, p) {
        Some(k) => match k.defining_crate {
            Some(d) => if k.adopted {
                match qualifier {
                    Some(q) => adopted_hit(rules, d@, q),
                    None => match first_value(ctx.import_maps@, (file, name)) {
                        Some(b) => adopted_hit(rules, d@, b.0),
                        None => false,
                    },
                }
            } else {
                credits_view(
                    site_origin(
                        file,
                        name,
                        qualifier,
                        using,
                        ctx.import_maps@,
                        ctx.vocab@,
                        ctx.local_decl_crates@,
                        ctx.local_mod_crates@,
                    ),
                    using,
                    d@,
                    name,
                    ctx.facades.leaf_reexports@,
                    ctx.facades.ns_closure@,
                )
            },
            None => false,
        },
        None => false,
    }
}

/// A vote for `p` from crate `using` when the pattern is
/// workspace-originated and the site credits it.
pub open spec fn vote(
    rules: BallotRules,
    ctx: SiteContext,
    p: PatternView,
    name: Seq<char>,
    qualifier: Option<Seq<char>>,
    file: Seq<char>,
    using: Seq<char>,
) -> Seq<(Seq<char>, PatternView)> {
    if workspace_originated(rules, p) && ballot_credit(rules, ctx, p, name, qualifier, file, using) {
        seq![(using, p)]
    } else {
        Seq::empty()
    }
}

/// The outer name of a `Outer::inner` name, or the whole name.
pub open spec fn outer_name(n: Seq<char>) -> Seq<char> {
    match split_once(n, "::"@) {
        Some((o, _)) => o,
        None => n,
    }
}

/// The votes of one fact of list `src` (0 impls, 1 derives, 2 type usages,
/// 3 macros): a trait impl (not `cfg`-gated) votes for the trait; a derive
/// for the derived trait; a type usage `O::i` for the implementation
/// function and then for the structure `O`, resolving `O`; an attribute
/// macro for the derive group, a macro invocation for the utility.
pub open spec fn votes_of(rules: BallotRules, ctx: SiteContext, src: int, f: PatternFact) -> Seq<(Seq<char>, PatternView)> {
    let file = text_or_empty(f.file);
    match opt_view(f.crate_name) {
        Some(c) => if src == 0 {
            match opt_view(f.trait_name) {
                Some(t) => if !f.cfg_gated {
                    vote(rules, ctx, PatternView::Traits(t), t, None, file, c)
                } else {
                    Seq::empty()
                },
                None => Seq::empty(),
            }
        } else if src == 1 {
            match opt_view(f.trait_name) {
                Some(t) => vote(rules, ctx, PatternView::Derives(t), t, None, file, c),
                None => Seq::empty(),
            }
        } else if src == 2 {
            match opt_view(f.name) {
                Some(n) => vote(
                    rules,
                    ctx,
                    PatternView::from_group_name(PickGroup::ImplementationFunctions, n),
                    outer_name(n),
                    opt_view(f.qualifier),
                    file,
                    c,
                ) + match split_once(n, "::"@) {
                    Some((o, _)) => vote(rules, ctx, PatternView::Structure(o), o, opt_view(f.qualifier), file, c),
                    None => Seq::empty(),
                },
                None => Seq::empty(),
            }
        } else {
            match opt_view(f.name) {
                Some(n) => if opt_view(f.kind) == Some("attr_macro"@) {
                    vote(rules, ctx, PatternView::Derives(n), n, None, file, c)
                } else if opt_view(f.kind) == Some("macro_invocation"@) {
                    vote(rules, ctx, PatternView::Utilities(n), n, None, file, c)
                } else {
                    Seq::empty()
                },
                None => Seq::empty(),
            }
        },
        None => Seq::empty(),
    }
}

/// The votes of a fact list, in order.
pub open spec fn list_votes(rules: BallotRules, ctx: SiteContext, src: int, fs: Seq<PatternFact>) -> Seq<(Seq<char>, PatternView)>
    decreases fs.len(),
{
    if fs.len() == 0 {
        Seq::empty()
    } else {
        list_votes(rules, ctx, src, fs.drop_last()) + votes_of(rules, ctx, src, fs.last())
    }
}

/// The position of crate `c` in the tally.
pub open spec fn crate_pos(t: Seq<(Seq<char>, Seq<(PatternView, nat)>)>, c: Seq<char>) -> Option<int>
    decreases t.len(),
{
    if t.len() == 0 {
        None
    } else {
        match crate_pos(t.drop_last(), c) {
            Some(i) => Some(i),
            None => if t.last().0 == c {
                Some(t.len() - 1)
            } else {
                None
            },
        }
    }
}

/// The position of pattern `p` in a crate's row.
pub open spec fn pattern_pos(row: Seq<(PatternView, nat)>, p: PatternView) -> Option<int>
    decreases row.len(),
{
    if row.len() == 0 {
        None
    } else {
        match pattern_pos(row.drop_last(), p) {
            Some(i) => Some(i),
            None => if row.last().0 == p {
                Some(row.len() - 1)
            } else {
                None
            },
        }
    }
}

/// A crate's row after one more vote for `p`: its count goes up by one,
/// or it joins the row with a count of one.
pub open spec fn bump(row: Seq<(PatternView, nat)>, p: PatternView) -> Seq<(PatternView, nat)> {
    match pattern_pos(row, p) {
        Some(j) => row.update(j, (p, row[j].1 + 1)),
        None => row.push((p, 1nat)),
    }
}

/// The tally after one more vote: crates and their patterns keep the order
/// they were first voted in.
pub open spec fn tally_one(t: Seq<(Seq<char>, Seq<(PatternView, nat)>)>, v: (Seq<char>, PatternView)) -> Seq<
    (Seq<char>, Seq<(PatternView, nat)>),
> {
    match crate_pos(t, v.0) {
        Some(i) => t.update(i, (v.0, bump(t[i].1, v.1))),
        None => t.push((v.0, seq![(v.1, 1nat)])),
    }
}

/// The tally of the votes, in order.
pub open spec fn tally(votes: Seq<(Seq<char>, PatternView)>) -> Seq<(Seq<char>, Seq<(PatternView, nat)>)>
    decreases votes.len(),
{
    if votes.len() == 0 {
        Seq::empty()
    } else {
        tally_one(tally(votes.drop_last()), votes.last())
    }
}

/// The per-crate ballots: the tally of the votes of the impls, derives,
/// type usages and macros, in that order.
pub open spec fn ballots_view(
    rules: BallotRules,
    ctx: SiteContext,
    impls: Seq<PatternFact>,
    derives: Seq<PatternFact>,
    type_usages: Seq<PatternFact>,
    macros: Seq<PatternFact>,
) -> Seq<(Seq<char>, Seq<(PatternView, nat)>)> {
    tally(
        list_votes(rules, ctx, 0, impls) + list_votes(rules, ctx, 1, derives) + list_votes(rules, ctx, 2, type_usages)
            + list_votes(rules, ctx, 3, macros),
    )
}

/// The value of a computed tally.
pub open spec fn tally_view(v: Seq<(String, Vec<(Pattern, usize)>)>) -> Seq<(Seq<char>, Seq<(PatternView, nat)>)> {
    v.map_values(
        |e: (String, Vec<(Pattern, usize)>)| (e.0@, e.1@.map_values(|x: (Pattern, usize)| (x.0@, x.1 as nat))),
    )
}

/// Every count of the tally is at most `b`.
pub open spec fn counts_within(t: Seq<(Seq<char>, Seq<(PatternView, nat)>)>, b: nat) -> bool {
    forall|i: int, j: int| 0 <= i < t.len() && 0 <= j < t[i].1.len() ==> #[trigger] t[i].1[j].1 <= b
}

fn key_of_exec<'a>(keys: &'a Vec<BallotKey>, p: &Pattern) -> (r: Option<&'a BallotKey>)
    ensures
        match r {
            Some(k) => key_of(keys@, p@) == Some(*k),
            None => key_of(keys@, p@) is None,
        },
{
    let mut i: usize = keys.len();
    assert(keys@.take(keys@.len() as int) =~= keys@);
    while i > 0
        invariant
            i <= keys@.len(),
            key_of(keys@, p@) == key_of(keys@.take(i as int), p@),
        decreases i,
    {
        let ghost pre = keys@.take(i as int);
        assert(pre.drop_last() =~= keys@.take(i - 1));
        assert(pre.last() == keys@[i - 1]);
        if keys[i - 1].pattern == *p {
            return Some(&keys[i - 1]);
        }
        i = i - 1;
    }
    assert(keys@.take(0) =~= Seq::<BallotKey>::empty());
    None
}

proof fn lemma_key_of_full(keys: Seq<BallotKey>, p: PatternView)
    ensures
        key_of(keys, p) == key_of(keys.take(keys.len() as int), p),
{
    assert(keys.take(keys.len() as int) =~= keys);
}

fn workspace_originated_exec(rules: &BallotRules, p: &Pattern) -> (r: bool)
    ensures
        r == workspace_originated(*rules, p@),
{
    proof {
        lemma_key_of_full(rules.keys@, p@);
    }
    match key_of_exec(&rules.keys, p) {
        Some(k) => match &k.defining_crate {
            Some(c) => !strings_contain(&rules.scaffolding, c.as_str()),
            None => false,
        },
        None => false,
    }
}

fn adopted_hit_exec(rules: &BallotRules, defining: &str, r: &str) -> (b: bool)
    ensures
        b == adopted_hit(*rules, defining@, r@),
{
    let rn = underscored_exec(r);
    if str_eq(rn.as_str(), defining) {
        return true;
    }
    let ghost av = adopters_view(rules.adopters@);
    let mut i: usize = 0;
    while i < rules.adopters.len()
        invariant
            i <= rules.adopters@.len(),
            av == adopters_view(rules.adopters@),
            rn@ == underscored(r@),
            rn@ != defining@,
            first_value(av.take(i as int), defining@) is None,
        decreases rules.adopters@.len() - i,
    {
        proof {
            assert(av.take(i + 1).drop_last() =~= av.take(i as int));
            assert(av.take(i + 1).last() == av[i as int]);
        }
        if str_eq(rules.adopters[i].0.as_str(), defining) {
            proof {
                lemma_first_value_step(av, i as int, defining@);
                lemma_first_value_prefix(av, i + 1, defining@);
            }
            let cs = &rules.adopters[i].1;
            let ghost cv = strings_view(cs@);
            assert(av[i as int].1 == cv);
            let mut k: usize = 0;
            while k < cs.len()
                invariant
                    k <= cs@.len(),
                    cv == strings_view(cs@),
                    rn@ == underscored(r@),
                    first_value(av, defining@) == Some(cv),
                    av == adopters_view(rules.adopters@),
                    forall|j: int| 0 <= j < k ==> underscored(#[trigger] cv[j]) != underscored(r@),
                decreases cs@.len() - k,
            {
                let cn = underscored_exec(cs[k].as_str());
                assert(cv[k as int] == cs@[k as int]@);
                if str_eq(cn.as_str(), rn.as_str()) {
                    assert(underscored(cv[k as int]) == underscored(r@));
                    assert(first_value(adopters_view(rules.adopters@), defining@) == Some(cv));
                    assert(k < cv.len());
                    assert(exists|j: int| 0 <= j < cv.len() && underscored(#[trigger] cv[j]) == underscored(r@));
                    proof {
                        let fv = first_value(adopters_view(rules.adopters@), defining@);
                        let cs = fv->0;
                        assert(cs == cv);
                        assert(underscored(cs[k as int]) == underscored(r@));
                    }
                    assert(adopted_hit(*rules, defining@, r@));
                    return true;
                }
                k = k + 1;
            }
            assert(!(exists|j: int| 0 <= j < cv.len() && underscored(#[trigger] cv[j]) == underscored(r@)));
            return false;
        }
        i = i + 1;
    }
    assert(av.take(i as int) =~= av);
    false
}

fn ballot_credit_exec(
    rules: &BallotRules,
    ctx: &SiteContext,
    p: &Pattern,
    name: &str,
    qualifier: Option<&str>,
    file: &str,
    using: &str,
) -> (r: bool)
    ensures
        r == ballot_credit(
            *rules,
            *ctx,
            p@,
            name@,
            match qualifier {
                Some(q) => Some(q@),
                None => None,
            },
            file@,
            using@,
        ),
{
    proof {
        lemma_key_of_full(rules.keys@, p@);
    }
    let k = match key_of_exec(&rules.keys, p) {
        Some(k) => k,
        None => return false,
    };
    let d = match &k.defining_crate {
        Some(d) => d,
        None => return false,
    };
    if k.adopted {
        match qualifier {
            Some(q) => adopted_hit_exec(rules, d.as_str(), q),
            None => match ctx.import_maps.get(file, name) {
                Some(b) => adopted_hit_exec(rules, d.as_str(), b.root.as_str()),
                None => false,
            },
        }
    } else {
        let origin = resolve_site_origin(
            file,
            name,
            qualifier,
            using,
            &ctx.import_maps,
            &ctx.vocab,
            &ctx.local_decl_crates,
            &ctx.local_mod_crates,
        );
        site_credits(&origin, using, d.as_str(), name, &ctx.facades)
    }
}

/// The value of a list of votes.
pub open spec fn votes_view(v: Seq<(String, Pattern)>) -> Seq<(Seq<char>, PatternView)> {
    v.map_values(|x: (String, Pattern)| (x.0@, x.1@))
}

fn vote_exec(
    out: &mut Vec<(String, Pattern)>,
    rules: &BallotRules,
    ctx: &SiteContext,
    p: Pattern,
    name: &str,
    qualifier: Option<&str>,
    file: &str,
    using: &str,
)
    ensures
        votes_view(final(out)@) == votes_view(old(out)@) + vote(
            *rules,
            *ctx,
            p@,
            name@,
            match qualifier {
                Some(q) => Some(q@),
                None => None,
            },
            file@,
            using@,
        ),
{
    let ghost before = votes_view(out@);
    if workspace_originated_exec(rules, &p) && ballot_credit_exec(rules, ctx, &p, name, qualifier, file, using) {
        let ghost pv = p@;
        out.push((using.to_string(), p));
        assert(votes_view(out@) =~= before.push((using@, pv)));
    } else {
        assert(votes_view(out@) =~= before + Seq::<(Seq<char>, PatternView)>::empty());
    }
}

fn votes_of_exec(rules: &BallotRules, ctx: &SiteContext, src: u8, f: &PatternFact) -> (r: Vec<(String, Pattern)>)
    requires
        src <= 3,
    ensures
        votes_view(r@) == votes_of(*rules, *ctx, src as int, *f),
        r@.len() <= 2,
{
    let mut out: Vec<(String, Pattern)> = Vec::new();
    let file = owned_or_empty(&f.file);
    let c = match &f.crate_name {
        Some(c) => c,
        None => {
            assert(votes_view(out@) =~= Seq::<(Seq<char>, PatternView)>::empty());
            return out;
        },
    };
    assert(votes_view(out@) =~= Seq::<(Seq<char>, PatternView)>::empty());
    if src == 0 {
        if let Some(t) = &f.trait_name {
            if !f.cfg_gated {
                vote_exec(&mut out, rules, ctx, Pattern::traits(t.as_str()), t.as_str(), None, file.as_str(), c.as_str());
            }
        }
    } else if src == 1 {
        if let Some(t) = &f.trait_name {
            vote_exec(&mut out, rules, ctx, Pattern::derives(t.as_str()), t.as_str(), None, file.as_str(), c.as_str());
        }
    } else if src == 2 {
        if let Some(n) = &f.name {
            let q: Option<&str> = match &f.qualifier {
                Some(q) => Some(q.as_str()),
                None => None,
            };
            let split = split_once_str(n.as_str(), "::");
            let outer = match &split {
                Some((o, _)) => o.clone(),
                None => n.clone(),
            };
            vote_exec(
                &mut out,
                rules,
                ctx,
                Pattern::from_group_name(PickGroup::ImplementationFunctions, n.as_str()),
                outer.as_str(),
                q,
                file.as_str(),
                c.as_str(),
            );
            match &split {
                Some((o, _)) => {
                    vote_exec(&mut out, rules, ctx, Pattern::structure(o.as_str()), o.as_str(), q, file.as_str(), c.as_str());
                },
                None => {
                    assert(votes_view(out@) + Seq::<(Seq<char>, PatternView)>::empty() =~= votes_view(out@));
                },
            }
        }
    } else {
        if let Some(n) = &f.name {
            let attr = match &f.kind {
                Some(k) => str_eq(k.as_str(), "attr_macro"),
                None => false,
            };
            let inv = match &f.kind {
                Some(k) => str_eq(k.as_str(), "macro_invocation"),
                None => false,
            };
            if attr {
                vote_exec(&mut out, rules, ctx, Pattern::derives(n.as_str()), n.as_str(), None, file.as_str(), c.as_str());
            } else if inv {
                vote_exec(&mut out, rules, ctx, Pattern::utilities(n.as_str()), n.as_str(), None, file.as_str(), c.as_str());
            }
        }
    }
    assert(votes_view(out@) =~= votes_of(*rules, *ctx, src as int, *f));
    out
}

fn pattern_pos_exec(row: &Vec<(Pattern, usize)>, p: &Pattern) -> (r: Option<usize>)
    ensures
        match r {
            Some(j) => j < row@.len() && pattern_pos(row@.map_values(|x: (Pattern, usize)| (x.0@, x.1 as nat)), p@) == Some(j as int),
            None => pattern_pos(row@.map_values(|x: (Pattern, usize)| (x.0@, x.1 as nat)), p@) is None,
        },
{
    let ghost rv = row@.map_values(|x: (Pattern, usize)| (x.0@, x.1 as nat));
    let mut i: usize = 0;
    while i < row.len()
        invariant
            i <= row@.len(),
            rv == row@.map_values(|x: (Pattern, usize)| (x.0@, x.1 as nat)),
            pattern_pos(rv.take(i as int), p@) is None,
        decreases row@.len() - i,
    {
        proof {
            assert(rv.take(i + 1).drop_last() =~= rv.take(i as int));
        }
        if row[i].0 == *p {
            proof {
                lemma_pattern_pos_extends(rv, i + 1, p@);
            }
            return Some(i);
        }
        i = i + 1;
    }
    assert(rv.take(i as int) =~= rv);
    None
}

proof fn lemma_pattern_pos_extends(row: Seq<(PatternView, nat)>, n: int, p: PatternView)
    requires
        0 <= n <= row.len(),
        pattern_pos(row.take(n), p) is Some,
    ensures
        pattern_pos(row, p) == pattern_pos(row.take(n), p),
    decreases row.len() - n,
{
    if n < row.len() {
        assert(row.take(n + 1).drop_last() =~= row.take(n));
        lemma_pattern_pos_extends(row, n + 1, p);
    } else {
        assert(row.take(n) =~= row);
    }
}

proof fn lemma_pattern_pos_bounds(row: Seq<(PatternView, nat)>, p: PatternView)
    ensures
        pattern_pos(row, p) matches Some(j) ==> 0 <= j < row.len() && row[j].0 == p,
    decreases row.len(),
{
    if row.len() > 0 {
        lemma_pattern_pos_bounds(row.drop_last(), p);
    }
}

proof fn lemma_crate_pos_bounds(t: Seq<(Seq<char>, Seq<(PatternView, nat)>)>, c: Seq<char>)
    ensures
        crate_pos(t, c) matches Some(i) ==> 0 <= i < t.len() && t[i].0 == c,
    decreases t.len(),
{
    if t.len() > 0 {
        lemma_crate_pos_bounds(t.drop_last(), c);
    }
}

proof fn lemma_crate_pos_extends(t: Seq<(Seq<char>, Seq<(PatternView, nat)>)>, n: int, c: Seq<char>)
    requires
        0 <= n <= t.len(),
        crate_pos(t.take(n), c) is Some,
    ensures
        crate_pos(t, c) == crate_pos(t.take(n), c),
    decreases t.len() - n,
{
    if n < t.len() {
        assert(t.take(n + 1).drop_last() =~= t.take(n));
        lemma_crate_pos_extends(t, n + 1, c);
    } else {
        assert(t.take(n) =~= t);
    }
}

fn tally_exec(counts: &mut Vec<(String, Vec<(Pattern, usize)>)>, v: (String, Pattern), Ghost(b): Ghost<nat>)
    requires
        counts_within(tally_view(old(counts)@), b),
        b < usize::MAX,
    ensures
        tally_view(final(counts)@) == tally_one(tally_view(old(counts)@), (v.0@, v.1@)),
        counts_within(tally_view(final(counts)@), b + 1),
{
    let ghost tv = tally_view(counts@);
    let ghost vv = (v.0@, v.1@);
    let mut i: usize = 0;
    while i < counts.len()
        invariant
            i <= counts@.len(),
            tv == tally_view(counts@),
            tv == tally_view(old(counts)@),
            vv == (v.0@, v.1@),
            counts_within(tv, b),
            b < usize::MAX,
            crate_pos(tv.take(i as int), vv.0) is None,
        decreases counts@.len() - i,
    {
        proof {
            assert(tv.take(i + 1).drop_last() =~= tv.take(i as int));
        }
        if str_eq(counts[i].0.as_str(), v.0.as_str()) {
            proof {
                assert(tv[i as int].0 == vv.0);
                assert(tv.take(i + 1).last() == tv[i as int]);
                lemma_crate_pos_extends(tv, i + 1, vv.0);
                assert(crate_pos(tv.take(i + 1), vv.0) == Some(i as int));
                assert(crate_pos(tv, vv.0) == Some(i as int));
            }
            let ghost row = tv[i as int].1;
            let pos = pattern_pos_exec(&counts[i].1, &v.1);
            let (name, mut prow) = counts.remove(i);
            let ghost rest = counts@;
            match pos {
                Some(j) => {
                    proof {
                        lemma_pattern_pos_bounds(row, vv.1);
                        assert(tv[i as int].1[j as int].1 <= b);
                    }
                    let (pat, n) = prow.remove(j);
                    prow.insert(j, (pat, n + 1));
                    proof {
                        assert(prow@.map_values(|x: (Pattern, usize)| (x.0@, x.1 as nat)) =~= bump(row, vv.1));
                    }
                },
                None => {
                    let ghost before = prow@.map_values(|x: (Pattern, usize)| (x.0@, x.1 as nat));
                    prow.push((v.1, 1));
                    proof {
                        assert(prow@.map_values(|x: (Pattern, usize)| (x.0@, x.1 as nat)) =~= bump(row, vv.1));
                    }
                },
            }
            counts.insert(i, (name, prow));
            proof {
                assert(tally_view(counts@) =~= tv.update(i as int, (vv.0, bump(row, vv.1))));
                assert(tally_one(tv, vv) == tv.update(i as int, (vv.0, bump(tv[i as int].1, vv.1))));
                assert(tally_view(counts@) == tally_one(tv, vv));
                assert forall|a: int, c: int|
                    0 <= a < tally_view(counts@).len() && 0 <= c < tally_view(counts@)[a].1.len() implies #[trigger] tally_view(
                    counts@,
                )[a].1[c].1 <= b + 1 by {
                    if a != i {
                        assert(tally_view(counts@)[a] == tv[a]);
                    } else {
                        let nr = bump(row, vv.1);
                        match pattern_pos(row, vv.1) {
                            Some(j) => {
                                if c != j {
                                    assert(nr[c] == row[c]);
                                }
                            },
                            None => {
                                if c < row.len() {
                                    assert(nr[c] == row[c]);
                                }
                            },
                        }
                    }
                }
            }
            return;
        }
        i = i + 1;
    }
    assert(tv.take(i as int) =~= tv);
    let ghost pv = v.1@;
    let mut row: Vec<(Pattern, usize)> = Vec::new();
    row.push((v.1, 1));
    counts.push((v.0, row));
    proof {
        assert(row@.map_values(|x: (Pattern, usize)| (x.0@, x.1 as nat)) =~= seq![(pv, 1nat)]);
        assert(tally_view(counts@) =~= tv.push((vv.0, seq![(pv, 1nat)])));
        assert forall|a: int, c: int|
            0 <= a < tally_view(counts@).len() && 0 <= c < tally_view(counts@)[a].1.len() implies #[trigger] tally_view(
            counts@,
        )[a].1[c].1 <= b + 1 by {
            if a < tv.len() {
                assert(tally_view(counts@)[a] == tv[a]);
            }
        }
    }
}

fn tally_list(
    counts: &mut Vec<(String, Vec<(Pattern, usize)>)>,
    rules: &BallotRules,
    ctx: &SiteContext,
    src: u8,
    facts: &Vec<PatternFact>,
    Ghost(prev): Ghost<Seq<(Seq<char>, PatternView)>>,
    Ghost(b): Ghost<nat>,
) -> (nb: Ghost<nat>)
    requires
        src <= 3,
        tally_view(old(counts)@) == tally(prev),
        counts_within(tally_view(old(counts)@), b),
        b + 2 * facts@.len() < usize::MAX,
    ensures
        nb@ <= b + 2 * facts@.len(),
        counts_within(tally_view(final(counts)@), nb@),
        tally_view(final(counts)@) == tally(prev + list_votes(*rules, *ctx, src as int, facts@)),
{
    let ghost mut bound: nat = b;
    let mut i: usize = 0;
    while i < facts.len()
        invariant
            i <= facts@.len(),
            src <= 3,
            bound <= b + 2 * i,
            b + 2 * facts@.len() < usize::MAX,
            counts_within(tally_view(counts@), bound),
            tally_view(counts@) == tally(prev + list_votes(*rules, *ctx, src as int, facts@.take(i as int))),
        decreases facts@.len() - i,
    {
        proof {
            assert(facts@.take(i + 1).drop_last() =~= facts@.take(i as int));
            assert(facts@.take(i + 1).last() == facts@[i as int]);
        }
        let mut votes = votes_of_exec(rules, ctx, src, &facts[i]);
        let ghost base = prev + list_votes(*rules, *ctx, src as int, facts@.take(i as int));
        let ghost vv = votes_view(votes@);
        let ghost n = vv.len();
        let mut k: usize = 0;
        while votes.len() > 0
            invariant
                k <= n <= 2,
                vv.len() == n,
                votes_view(votes@) == vv.skip(k as int),
                bound <= b + 2 * i,
                b + 2 * facts@.len() < usize::MAX,
                i < facts@.len(),
                counts_within(tally_view(counts@), (bound + k) as nat),
                tally_view(counts@) == tally(base + vv.take(k as int)),
            decreases votes@.len(),
        {
            let ghost ov = votes@;
            assert(votes_view(ov).len() == vv.skip(k as int).len());
            assert(votes_view(ov)[0] == vv.skip(k as int)[0]);
            let v = votes.remove(0);
            proof {
                assert(vv[k as int] == (v.0@, v.1@));
                assert(votes_view(votes@) =~= vv.skip(k + 1)) by {
                    assert forall|x: int| 0 <= x < votes_view(votes@).len() implies votes_view(votes@)[x] == vv.skip(k + 1)[x] by {
                        assert(votes@[x] == ov[x + 1]);
                        assert(votes_view(ov)[x + 1] == vv.skip(k as int)[x + 1]);
                    }
                }
            }
            tally_exec(counts, v, Ghost((bound + k) as nat));
            proof {
                let w = base + vv.take(k + 1);
                assert(w.drop_last() =~= base + vv.take(k as int));
                assert(w.last() == vv[k as int]);
            }
            k = k + 1;
        }
        proof {
            assert(vv.skip(k as int).len() == 0);
        }
        proof {
            assert(vv.take(k as int) =~= vv);
            assert(prev + list_votes(*rules, *ctx, src as int, facts@.take(i + 1)) =~= base + vv);
            bound = (bound + k) as nat;
        }
        i = i + 1;
    }
    assert(facts@.take(i as int) =~= facts@);
    Ghost(bound)
}

/// Counts the per-crate ballots: every trait impl (not `cfg`-gated),
/// derive, type usage (voting for the implementation function and its
/// outer structure) and attribute or invocation macro site votes, for its
/// crate, for the pattern it names, when that pattern is defined in a
/// non-scaffolding workspace crate and the site credits it; the votes are
/// tallied per crate, crates and patterns in first-voted order.
pub fn per_crate_ballots(
    rules: &BallotRules,
    ctx: &SiteContext,
    impls: &Vec<PatternFact>,
    derives: &Vec<PatternFact>,
    type_usages: &Vec<PatternFact>,
    macros: &Vec<PatternFact>,
) -> (r: Vec<(String, Vec<(Pattern, usize)>)>)
    requires
        2 * (impls@.len() + derives@.len() + type_usages@.len() + macros@.len()) < usize::MAX,
    ensures
        tally_view(r@) == ballots_view(*rules, *ctx, impls@, derives@, type_usages@, macros@),
{
    let mut counts: Vec<(String, Vec<(Pattern, usize)>)> = Vec::new();
    let ghost v0: Seq<(Seq<char>, PatternView)> = Seq::empty();
    assert(tally_view(counts@) =~= tally(v0));
    let b1 = tally_list(&mut counts, rules, ctx, 0, impls, Ghost(v0), Ghost(0));
    let ghost v1 = v0 + list_votes(*rules, *ctx, 0, impls@);
    let b2 = tally_list(&mut counts, rules, ctx, 1, derives, Ghost(v1), b1);
    let ghost v2 = v1 + list_votes(*rules, *ctx, 1, derives@);
    let b3 = tally_list(&mut counts, rules, ctx, 2, type_usages, Ghost(v2), b2);
    let ghost v3 = v2 + list_votes(*rules, *ctx, 2, type_usages@);
    let _b4 = tally_list(&mut counts, rules, ctx, 3, macros, Ghost(v3), b3);
    assert(v3 + list_votes(*rules, *ctx, 3, macros@) =~= list_votes(*rules, *ctx, 0, impls@) + list_votes(
        *rules,
        *ctx,
        1,
        derives@,
    ) + list_votes(*rules, *ctx, 2, type_usages@) + list_votes(*rules, *ctx, 3, macros@));
    counts
}

/// Every vote is for a pattern defined in a non-scaffolding workspace
/// crate.
pub open spec fn eligible_votes(rules: BallotRules, vs: Seq<(Seq<char>, PatternView)>) -> bool {
    forall|k: int| 0 <= k < vs.len() ==> workspace_originated(rules, #[trigger] vs[k].1)
}

proof fn lemma_votes_of_eligible(rules: BallotRules, ctx: SiteContext, src: int, f: PatternFact)
    ensures
        eligible_votes(rules, votes_of(rules, ctx, src, f)),
{
    let v = votes_of(rules, ctx, src, f);
    assert forall|k: int| 0 <= k < v.len() implies workspace_originated(rules, #[trigger] v[k].1) by {
        match opt_view(f.name) {
            Some(n) => {
                if src == 2 {
                    let a = vote(
                        rules,
                        ctx,
                        PatternView::from_group_name(PickGroup::ImplementationFunctions, n),
                        outer_name(n),
                        opt_view(f.qualifier),
                        text_or_empty(f.file),
                        opt_view(f.crate_name)->0,
                    );
                    if k >= a.len() {
                        assert(v[k] == v.subrange(a.len() as int, v.len() as int)[k - a.len()]);
                    }
                }
            },
            None => {},
        }
    }
}

proof fn lemma_list_votes_eligible(rules: BallotRules, ctx: SiteContext, src: int, fs: Seq<PatternFact>)
    ensures
        eligible_votes(rules, list_votes(rules, ctx, src, fs)),
    decreases fs.len(),
{
    if fs.len() > 0 {
        lemma_list_votes_eligible(rules, ctx, src, fs.drop_last());
        lemma_votes_of_eligible(rules, ctx, src, fs.last());
        let a = list_votes(rules, ctx, src, fs.drop_last());
        let b = votes_of(rules, ctx, src, fs.last());
        assert forall|k: int| 0 <= k < (a + b).len() implies workspace_originated(rules, #[trigger] (a + b)[k].1) by {
            if k < a.len() {
                assert((a + b)[k] == a[k]);
            } else {
                assert((a + b)[k] == b[k - a.len()]);
            }
        }
    }
}

proof fn lemma_tally_eligible(rules: BallotRules, vs: Seq<(Seq<char>, PatternView)>)
    requires
        eligible_votes(rules, vs),
    ensures
        forall|i: int, j: int|
            0 <= i < tally(vs).len() && 0 <= j < tally(vs)[i].1.len() ==> workspace_originated(rules, #[trigger] tally(vs)[i].1[j].0)
                && tally(vs)[i].1[j].1 >= 1,
    decreases vs.len(),
{
    if vs.len() > 0 {
        let pre = vs.drop_last();
        assert(eligible_votes(rules, pre)) by {
            assert forall|k: int| 0 <= k < pre.len() implies workspace_originated(rules, #[trigger] pre[k].1) by {
                assert(pre[k] == vs[k]);
            }
        }
        lemma_tally_eligible(rules, pre);
        let t = tally(pre);
        let v = vs.last();
        assert(workspace_originated(rules, vs[vs.len() - 1].1));
        lemma_crate_pos_bounds(t, v.0);
        let n = tally(vs);
        assert forall|i: int, j: int| 0 <= i < n.len() && 0 <= j < n[i].1.len() implies workspace_originated(
            rules,
            #[trigger] n[i].1[j].0,
        ) && n[i].1[j].1 >= 1 by {
            match crate_pos(t, v.0) {
                Some(c) => {
                    if i == c {
                        let row = t[c].1;
                        lemma_pattern_pos_bounds(row, v.1);
                        match pattern_pos(row, v.1) {
                            Some(q) => {
                                if j != q {
                                    assert(n[i].1[j] == row[j]);
                                }
                            },
                            None => {
                                if j < row.len() {
                                    assert(n[i].1[j] == row[j]);
                                }
                            },
                        }
                    } else {
                        assert(n[i] == t[i]);
                    }
                },
                None => {
                    if i < t.len() {
                        assert(n[i] == t[i]);
                    }
                },
            }
        }
    }
}

/// Only patterns defined in non-scaffolding workspace crates receive
/// ballot counts, and every count in the ballots is at least one.
pub proof fn lemma_ballots_only_eligible(
    rules: BallotRules,
    ctx: SiteContext,
    impls: Seq<PatternFact>,
    derives: Seq<PatternFact>,
    type_usages: Seq<PatternFact>,
    macros: Seq<PatternFact>,
)
    ensures
        ({
            let t = ballots_view(rules, ctx, impls, derives, type_usages, macros);
            forall|i: int, j: int|
                0 <= i < t.len() && 0 <= j < t[i].1.len() ==> workspace_originated(rules, #[trigger] t[i].1[j].0)
                    && t[i].1[j].1 >= 1
        }),
{
    let a = list_votes(rules, ctx, 0, impls);
    let b = list_votes(rules, ctx, 1, derives);
    let c = list_votes(rules, ctx, 2, type_usages);
    let d = list_votes(rules, ctx, 3, macros);
    lemma_list_votes_eligible(rules, ctx, 0, impls);
    lemma_list_votes_eligible(rules, ctx, 1, derives);
    lemma_list_votes_eligible(rules, ctx, 2, type_usages);
    lemma_list_votes_eligible(rules, ctx, 3, macros);
    let all = a + b + c + d;
    assert forall|k: int| 0 <= k < all.len() implies workspace_originated(rules, #[trigger] all[k].1) by {
        if k < a.len() {
            assert(all[k] == a[k]);
        } else if k < a.len() + b.len() {
            assert(all[k] == b[k - a.len()]);
        } else if k < a.len() + b.len() + c.len() {
            assert(all[k] == c[k - a.len() - b.len()]);
        } else {
            assert(all[k] == d[k - a.len() - b.len() - c.len()]);
        }
    }
    lemma_tally_eligible(rules, all);
}

} // verus!
