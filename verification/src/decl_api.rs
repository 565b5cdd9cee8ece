//! The declaration-driven API channel: the public chains a module-level
//! declaration is reachable under (its own chain, and the locations its
//! re-exports give it), and the API keys minted from them.

use vstd::prelude::*;
use crate::assoc::{first_value, lemma_first_value_prefix, lemma_first_value_step};
use crate::modules::{DeclCandidate, ModIndex, colon_join, counts_view, join_chain, vis_view};
use crate::resolution::{opt_view, strings_contain, strings_view};
use crate::config::{FiltersConfig, matches_any_substring, should_skip_pattern};
use crate::pattern::{Pattern, PatternView};
use crate::sorting::{sort_strings, sorted_view};
use crate::stable_order::{KeyView, SortKey, keys_view, positions_view, stable_order, stable_order_exec};
use crate::text::{push_str, str_eq};
use crate::vocabulary::{distinct, distinct_exec};

verus! {

/// A soft binding of a name: the module chain of the `pub use` site that
/// binds it, the source-parent segment of the use path (matching the
/// binding to the right same-named declaration), whether the site's chain
/// is public, and whether the path resolves relative to its site.
#[derive(Debug, Clone)]
pub struct SoftBinding {
    pub chain: Vec<String>,
    pub source_parent: Option<String>,
    pub site_public: bool,
    pub site_relative: bool,
}

/// A glob soft binding `pub use <path>::*;`: its crate, the module chain of
/// its site, the last segment of the globbed path, and whether the site's
/// chain is public.
#[derive(Debug, Clone)]
pub struct GlobBinding {
    pub krate: String,
    pub chain: Vec<String>,
    pub parent: String,
    pub site_public: bool,
}

/// The state of the re-export walk: the locations still to visit (the last
/// is visited next), the `::`-joined locations seen, and the public chains
/// found.
pub ghost struct Walk {
    pub queue: Seq<Seq<Seq<char>>>,
    pub seen: Seq<Seq<char>>,
    pub out: Seq<Seq<Seq<char>>>,
}

/// The walk after offering location `next` (public when its site is): a
/// location not seen before is recorded, and while at most 64 locations are
/// seen it is queued (and, when public, found).
pub open spec fn offer(w: Walk, next: Seq<Seq<char>>, public: bool) -> Walk {
    let key = colon_join(next);
    if w.seen.contains(key) {
        w
    } else if w.seen.len() + 1 <= 64 {
        Walk {
            queue: w.queue.push(next),
            seen: w.seen.push(key),
            out: if public {
                w.out.push(next)
            } else {
                w.out
            },
        }
    } else {
        Walk { queue: w.queue, seen: w.seen.push(key), out: w.out }
    }
}

/// The last position of segment `p` in chain `c`.
pub open spec fn last_pos(c: Seq<Seq<char>>, p: Seq<char>) -> Option<int>
    decreases c.len(),
{
    if c.len() == 0 {
        None
    } else if c.last() == p {
        Some(c.len() - 1)
    } else {
        last_pos(c.drop_last(), p)
    }
}

/// Every module of `c` below position `i` is a public, non-hidden module of
/// crate `k`.
pub open spec fn suffix_public(vis: Seq<((Seq<char>, Seq<char>), (bool, bool))>, k: Seq<char>, c: Seq<Seq<char>>, i: int) -> bool {
    forall|j: int| i + 1 <= j < c.len() ==> first_value(vis, (k, #[trigger] colon_join(c.take(j + 1)))) == Some((true, false))
}

/// The location a glob gives location `c` of a declaration of crate `k`:
/// the glob's site chain followed by the part of `c` below the last
/// occurrence of the glob's parent, when that part is public.
pub open spec fn glob_next(vis: Seq<((Seq<char>, Seq<char>), (bool, bool))>, k: Seq<char>, c: Seq<Seq<char>>, g: GlobBinding) -> Option<
    Seq<Seq<char>>,
> {
    if g.krate@ != k {
        None
    } else {
        match last_pos(c, g.parent@) {
            Some(i) => if suffix_public(vis, k, c, i) {
                Some(strings_view(g.chain@) + c.subrange(i + 1, c.len() as int))
            } else {
                None
            },
            None => None,
        }
    }
}

/// The walk after offering the locations the globs give `c`, in order.
pub open spec fn visit_globs(
    w: Walk,
    vis: Seq<((Seq<char>, Seq<char>), (bool, bool))>,
    k: Seq<char>,
    c: Seq<Seq<char>>,
    gs: Seq<GlobBinding>,
) -> Walk
    decreases gs.len(),
{
    if gs.len() == 0 {
        w
    } else {
        let prev = visit_globs(w, vis, k, c, gs.drop_last());
        match glob_next(vis, k, c, gs.last()) {
            Some(n) => offer(prev, n, gs.last().site_public),
            None => prev,
        }
    }
}

/// Chain `b` starts chain `c`.
pub open spec fn chain_starts(c: Seq<Seq<char>>, b: Seq<Seq<char>>) -> bool {
    b.len() <= c.len() && c.take(b.len() as int) == b
}

/// A soft binding attaches at location `c`: with a source parent, `c` ends
/// in that parent (and, for a site-relative path, lies under the binding's
/// site); without one, when the name is unique among the crate's
/// module-level declarations.
pub open spec fn attaches(b: SoftBinding, c: Seq<Seq<char>>, no_parent: bool) -> bool {
    match b.source_parent {
        Some(p) => c.len() > 0 && c.last() == p@ && (!b.site_relative || chain_starts(c, strings_view(b.chain@))),
        None => no_parent,
    }
}

/// The walk after offering the sites of the soft bindings attaching at
/// `c`, in order.
pub open spec fn visit_softs(w: Walk, c: Seq<Seq<char>>, bs: Seq<SoftBinding>, no_parent: bool) -> Walk
    decreases bs.len(),
{
    if bs.len() == 0 {
        w
    } else {
        let prev = visit_softs(w, c, bs.drop_last(), no_parent);
        if attaches(bs.last(), c, no_parent) {
            offer(prev, strings_view(bs.last().chain@), bs.last().site_public)
        } else {
            prev
        }
    }
}

/// The size of the walk still to go: its queue, and how many more
/// locations can still be queued.
pub open spec fn walk_measure(w: Walk) -> nat {
    w.queue.len() + if w.seen.len() < 65 {
        (65 - w.seen.len()) as nat
    } else {
        0nat
    }
}

/// Offering a location never grows what the walk still has to do, and
/// never shrinks its queue.
pub proof fn lemma_offer_measure(w: Walk, next: Seq<Seq<char>>, public: bool)
    ensures
        walk_measure(offer(w, next, public)) <= walk_measure(w),
        offer(w, next, public).queue.len() >= w.queue.len(),
{
}

/// Offering the locations globs give never grows what the walk still has
/// to do.
pub proof fn lemma_visit_globs_measure(
    w: Walk,
    vis: Seq<((Seq<char>, Seq<char>), (bool, bool))>,
    k: Seq<char>,
    c: Seq<Seq<char>>,
    gs: Seq<GlobBinding>,
)
    ensures
        walk_measure(visit_globs(w, vis, k, c, gs)) <= walk_measure(w),
    decreases gs.len(),
{
    if gs.len() > 0 {
        lemma_visit_globs_measure(w, vis, k, c, gs.drop_last());
        let prev = visit_globs(w, vis, k, c, gs.drop_last());
        match glob_next(vis, k, c, gs.last()) {
            Some(n) => lemma_offer_measure(prev, n, gs.last().site_public),
            None => {},
        }
    }
}

/// Offering the sites of attaching soft bindings never grows what the walk
/// still has to do.
pub proof fn lemma_visit_softs_measure(w: Walk, c: Seq<Seq<char>>, bs: Seq<SoftBinding>, no_parent: bool)
    ensures
        walk_measure(visit_softs(w, c, bs, no_parent)) <= walk_measure(w),
    decreases bs.len(),
{
    if bs.len() > 0 {
        lemma_visit_softs_measure(w, c, bs.drop_last(), no_parent);
        let prev = visit_softs(w, c, bs.drop_last(), no_parent);
        if attaches(bs.last(), c, no_parent) {
            lemma_offer_measure(prev, strings_view(bs.last().chain@), bs.last().site_public);
        }
    }
}

/// One visit: the last queued location is taken off the queue, and the
/// locations its globs and then its soft bindings give are offered.
pub open spec fn visit(
    w: Walk,
    vis: Seq<((Seq<char>, Seq<char>), (bool, bool))>,
    k: Seq<char>,
    gs: Seq<GlobBinding>,
    bs: Seq<SoftBinding>,
    no_parent: bool,
) -> Walk {
    let c = w.queue.last();
    let w1 = Walk { queue: w.queue.drop_last(), seen: w.seen, out: w.out };
    visit_softs(visit_globs(w1, vis, k, c, gs), c, bs, no_parent)
}

/// The walk run until its queue is empty.
pub open spec fn walk(
    w: Walk,
    vis: Seq<((Seq<char>, Seq<char>), (bool, bool))>,
    k: Seq<char>,
    gs: Seq<GlobBinding>,
    bs: Seq<SoftBinding>,
    no_parent: bool,
) -> Walk
    decreases walk_measure(w),
{
    if w.queue.len() == 0 {
        w
    } else {
        let next = visit(w, vis, k, gs, bs, no_parent);
        proof {
            let c = w.queue.last();
            let w1 = Walk { queue: w.queue.drop_last(), seen: w.seen, out: w.out };
            lemma_visit_globs_measure(w1, vis, k, c, gs);
            lemma_visit_softs_measure(visit_globs(w1, vis, k, c, gs), c, bs, no_parent);
        }
        walk(next, vis, k, gs, bs, no_parent)
    }
}

/// The value of the binding table: (crate, name) to its soft bindings.
pub open spec fn bindings_view(v: Seq<((String, String), Vec<SoftBinding>)>) -> Seq<((Seq<char>, Seq<char>), Seq<SoftBinding>)> {
    v.map_values(|e: ((String, String), Vec<SoftBinding>)| ((e.0.0@, e.0.1@), e.1@))
}
/// The public chains of a declaration: its own chain when that is public,
/// then every public location the re-export walk reaches from it, in the
/// order found. The walk starts at the declaration's chain and follows
/// glob splices and attaching soft bindings of the declaration's name;
/// a binding without a source parent attaches only when the name is
/// unique among the crate's module-level declarations.
pub open spec fn public_chains_view(
    krate: Seq<char>,
    name: Seq<char>,
    chain: Seq<Seq<char>>,
    hard_public: bool,
    counts: Seq<((Seq<char>, Seq<char>), nat)>,
    bindings: Seq<((Seq<char>, Seq<char>), Seq<SoftBinding>)>,
    globs: Seq<GlobBinding>,
    vis: Seq<((Seq<char>, Seq<char>), (bool, bool))>,
) -> Seq<Seq<Seq<char>>> {
    let no_parent = first_value(counts, (krate, name)) == Some(1nat);
    let bs = match first_value(bindings, (krate, name)) {
        Some(b) => b,
        None => Seq::empty(),
    };
    let init = Walk {
        queue: seq![chain],
        seen: seq![colon_join(chain)],
        out: if hard_public {
            seq![chain]
        } else {
            Seq::empty()
        },
    };
    walk(init, vis, krate, globs, bs, no_parent).out
}

/// The values of a list of chains.
pub open spec fn chains_view(v: Seq<Vec<String>>) -> Seq<Seq<Seq<char>>> {
    v.map_values(|c: Vec<String>| strings_view(c@))
}

/// The walk a queue, seen list and found list stand for.
pub open spec fn walk_of(q: Seq<Vec<String>>, s: Seq<String>, o: Seq<Vec<String>>) -> Walk {
    Walk { queue: chains_view(q), seen: strings_view(s), out: chains_view(o) }
}

fn copy_chain(c: &Vec<String>) -> (r: Vec<String>)
    ensures
        strings_view(r@) == strings_view(c@),
{
    prefix_chain(c, c.len())
}

fn prefix_chain(c: &Vec<String>, n: usize) -> (r: Vec<String>)
    requires
        n <= c@.len(),
    ensures
        strings_view(r@) == strings_view(c@).take(n as int),
{
    let ghost cv = strings_view(c@);
    let mut r: Vec<String> = Vec::new();
    let mut i: usize = 0;
    while i < n
        invariant
            i <= n <= c@.len(),
            cv == strings_view(c@),
            strings_view(r@) == cv.take(i as int),
        decreases n - i,
    {
        let ghost before = strings_view(r@);
        r.push(c[i].clone());
        assert(strings_view(r@) =~= before.push(cv[i as int]));
        assert(cv.take(i + 1) =~= cv.take(i as int).push(cv[i as int]));
        i = i + 1;
    }
    if n == c.len() {
        assert(cv.take(n as int) =~= cv);
    }
    r
}

fn push_chain(v: &mut Vec<Vec<String>>, c: Vec<String>)
    ensures
        chains_view(final(v)@) == chains_view(old(v)@).push(strings_view(c@)),
{
    let ghost before = chains_view(v@);
    let ghost cv = strings_view(c@);
    v.push(c);
    assert(chains_view(v@) =~= before.push(cv));
}

fn offer_exec(
    q: &mut Vec<Vec<String>>,
    s: &mut Vec<String>,
    o: &mut Vec<Vec<String>>,
    next: Vec<String>,
    public: bool,
)
    ensures
        walk_of(final(q)@, final(s)@, final(o)@) == offer(walk_of(old(q)@, old(s)@, old(o)@), strings_view(next@), public),
{
    let key = join_chain(&next, next.len());
    assert(strings_view(next@).take(next@.len() as int) =~= strings_view(next@));
    if strings_contain(s, key.as_str()) {
        return;
    }
    let ghost sb = strings_view(s@);
    let ghost kv = key@;
    if s.len() < 64 {
        s.push(key);
        assert(strings_view(s@) =~= sb.push(kv));
        if public {
            let c2 = copy_chain(&next);
            push_chain(o, c2);
        }
        push_chain(q, next);
    } else {
        s.push(key);
        assert(strings_view(s@) =~= sb.push(kv));
    }
}

fn last_pos_exec(c: &Vec<String>, p: &str) -> (r: Option<usize>)
    ensures
        match r {
            Some(i) => i < c@.len() && last_pos(strings_view(c@), p@) == Some(i as int),
            None => last_pos(strings_view(c@), p@) is None,
        },
{
    let ghost cv = strings_view(c@);
    let mut i: usize = c.len();
    assert(cv.take(cv.len() as int) =~= cv);
    while i > 0
        invariant
            i <= c@.len(),
            cv == strings_view(c@),
            last_pos(cv, p@) == last_pos(cv.take(i as int), p@),
        decreases i,
    {
        let ghost pre = cv.take(i as int);
        assert(pre.drop_last() =~= cv.take(i - 1));
        assert(pre.last() == cv[i - 1]);
        if str_eq(c[i - 1].as_str(), p) {
            return Some(i - 1);
        }
        i = i - 1;
    }
    assert(cv.take(0) =~= Seq::<Seq<char>>::empty());
    None
}

fn suffix_public_exec(mods: &ModIndex, k: &str, c: &Vec<String>, i: usize) -> (r: bool)
    requires
        i < c@.len(),
    ensures
        r == suffix_public(vis_view(mods.vis@), k@, strings_view(c@), i as int),
{
    let ghost cv = strings_view(c@);
    let len = c.len();
    let mut j: usize = i + 1;
    while j < len
        invariant
            len == c@.len(),
            i + 1 <= j <= c@.len(),
            cv == strings_view(c@),
            forall|jj: int| i + 1 <= jj < j ==> first_value(vis_view(mods.vis@), (k@, #[trigger] colon_join(cv.take(jj + 1)))) == Some((true, false)),
        decreases c@.len() - j,
    {
        let pre = prefix_chain(c, j + 1);
        let v = mods.vis_of(k, &pre);
        match v {
            Some((true, false)) => {},
            _ => {
                assert(first_value(vis_view(mods.vis@), (k@, colon_join(cv.take(j + 1)))) != Some((true, false)));
                return false;
            },
        }
        j = j + 1;
    }
    true
}

fn glob_next_exec(mods: &ModIndex, k: &str, c: &Vec<String>, g: &GlobBinding) -> (r: Option<Vec<String>>)
    ensures
        match r {
            Some(n) => glob_next(vis_view(mods.vis@), k@, strings_view(c@), *g) == Some(strings_view(n@)),
            None => glob_next(vis_view(mods.vis@), k@, strings_view(c@), *g) is None,
        },
{
    if !str_eq(g.krate.as_str(), k) {
        return None;
    }
    let i = match last_pos_exec(c, g.parent.as_str()) {
        Some(i) => i,
        None => return None,
    };
    if !suffix_public_exec(mods, k, c, i) {
        return None;
    }
    let ghost cv = strings_view(c@);
    let len = c.len();
    let mut next = copy_chain(&g.chain);
    let ghost gv = strings_view(g.chain@);
    let mut j: usize = i + 1;
    while j < len
        invariant
            len == c@.len(),
            i + 1 <= j <= c@.len(),
            cv == strings_view(c@),
            strings_view(next@) == gv + cv.subrange(i + 1, j as int),
        decreases c@.len() - j,
    {
        let ghost before = strings_view(next@);
        next.push(c[j].clone());
        assert(strings_view(next@) =~= before.push(cv[j as int]));
        assert(gv + cv.subrange(i + 1, j + 1) =~= (gv + cv.subrange(i + 1, j as int)).push(cv[j as int]));
        j = j + 1;
    }
    Some(next)
}

fn chain_starts_exec(c: &Vec<String>, b: &Vec<String>) -> (r: bool)
    ensures
        r == chain_starts(strings_view(c@), strings_view(b@)),
{
    let ghost cv = strings_view(c@);
    let ghost bv = strings_view(b@);
    if b.len() > c.len() {
        return false;
    }
    let mut i: usize = 0;
    while i < b.len()
        invariant
            i <= b@.len() <= c@.len(),
            cv == strings_view(c@),
            bv == strings_view(b@),
            forall|k: int| 0 <= k < i ==> cv[k] == bv[k],
        decreases b@.len() - i,
    {
        if !str_eq(c[i].as_str(), b[i].as_str()) {
            assert(cv.take(bv.len() as int)[i as int] != bv[i as int]);
            return false;
        }
        i = i + 1;
    }
    assert(cv.take(bv.len() as int) =~= bv);
    true
}

fn attaches_exec(b: &SoftBinding, c: &Vec<String>, no_parent: bool) -> (r: bool)
    ensures
        r == attaches(*b, strings_view(c@), no_parent),
{
    match &b.source_parent {
        Some(p) => {
            if c.len() == 0 {
                return false;
            }
            if !str_eq(c[c.len() - 1].as_str(), p.as_str()) {
                return false;
            }
            !b.site_relative || chain_starts_exec(c, &b.chain)
        },
        None => no_parent,
    }
}

fn count_lookup(counts: &Vec<((String, String), usize)>, k: &str, n: &str) -> (r: Option<usize>)
    ensures
        match r {
            Some(c) => first_value(counts_view(counts@), (k@, n@)) == Some(c as nat),
            None => first_value(counts_view(counts@), (k@, n@)) is None,
        },
{
    let ghost cv = counts_view(counts@);
    let mut i: usize = 0;
    while i < counts.len()
        invariant
            i <= counts@.len(),
            cv == counts_view(counts@),
            first_value(cv.take(i as int), (k@, n@)) is None,
        decreases counts@.len() - i,
    {
        proof {
            lemma_first_value_step(cv, i as int, (k@, n@));
        }
        if str_eq(counts[i].0.0.as_str(), k) && str_eq(counts[i].0.1.as_str(), n) {
            proof {
                lemma_first_value_prefix(cv, i + 1, (k@, n@));
            }
            return Some(counts[i].1);
        }
        i = i + 1;
    }
    assert(cv.take(i as int) =~= cv);
    None
}

fn bindings_lookup(bindings: &Vec<((String, String), Vec<SoftBinding>)>, k: &str, n: &str) -> (r: Option<usize>)
    ensures
        match r {
            Some(i) => i < bindings@.len() && first_value(bindings_view(bindings@), (k@, n@)) == Some(bindings@[i as int].1@),
            None => first_value(bindings_view(bindings@), (k@, n@)) is None,
        },
{
    let ghost bv = bindings_view(bindings@);
    let mut i: usize = 0;
    while i < bindings.len()
        invariant
            i <= bindings@.len(),
            bv == bindings_view(bindings@),
            first_value(bv.take(i as int), (k@, n@)) is None,
        decreases bindings@.len() - i,
    {
        proof {
            lemma_first_value_step(bv, i as int, (k@, n@));
        }
        if str_eq(bindings[i].0.0.as_str(), k) && str_eq(bindings[i].0.1.as_str(), n) {
            proof {
                lemma_first_value_prefix(bv, i + 1, (k@, n@));
            }
            return Some(i);
        }
        i = i + 1;
    }
    assert(bv.take(i as int) =~= bv);
    None
}

/// The public chains of a declaration (see `public_chains_view`): its own
/// chain when public, then the public locations its glob splices and
/// attaching soft bindings reach, following hops through private sites,
/// while at most 64 locations have been seen.
pub fn public_chains_for(
    decl: &DeclCandidate,
    name_counts: &Vec<((String, String), usize)>,
    bindings: &Vec<((String, String), Vec<SoftBinding>)>,
    glob_bindings: &Vec<GlobBinding>,
    mods: &ModIndex,
) -> (r: Vec<Vec<String>>)
    ensures
        chains_view(r@) == public_chains_view(
            decl.krate@,
            decl.name@,
            strings_view(decl.chain@),
            decl.hard_public,
            counts_view(name_counts@),
            bindings_view(bindings@),
            glob_bindings@,
            vis_view(mods.vis@),
        ),
{
    let ghost vis = vis_view(mods.vis@);
    let ghost k = decl.krate@;
    let no_parent = match count_lookup(name_counts, decl.krate.as_str(), decl.name.as_str()) {
        Some(c) => c == 1,
        None => false,
    };
    let empty: Vec<SoftBinding> = Vec::new();
    let softs: &Vec<SoftBinding> = match bindings_lookup(bindings, decl.krate.as_str(), decl.name.as_str()) {
        Some(i) => &bindings[i].1,
        None => &empty,
    };
    let ghost bs = softs@;
    assert(bs == match first_value(bindings_view(bindings@), (decl.krate@, decl.name@)) {
        Some(b) => b,
        None => Seq::<SoftBinding>::empty(),
    });
    let mut out: Vec<Vec<String>> = Vec::new();
    if decl.hard_public {
        push_chain(&mut out, copy_chain(&decl.chain));
    }
    let mut queue: Vec<Vec<String>> = Vec::new();
    push_chain(&mut queue, copy_chain(&decl.chain));
    let mut seen: Vec<String> = Vec::new();
    let key = join_chain(&decl.chain, decl.chain.len());
    assert(strings_view(decl.chain@).take(decl.chain@.len() as int) =~= strings_view(decl.chain@));
    let ghost s0 = strings_view(seen@);
    seen.push(key);
    assert(strings_view(seen@) =~= s0.push(colon_join(strings_view(decl.chain@))));
    let ghost goal = public_chains_view(
        decl.krate@,
        decl.name@,
        strings_view(decl.chain@),
        decl.hard_public,
        counts_view(name_counts@),
        bindings_view(bindings@),
        glob_bindings@,
        vis,
    );
    assert(walk(walk_of(queue@, seen@, out@), vis, k, glob_bindings@, bs, no_parent).out == goal) by {
        assert(chains_view(queue@) =~= seq![strings_view(decl.chain@)]);
        assert(strings_view(seen@) =~= seq![colon_join(strings_view(decl.chain@))]);
        if decl.hard_public {
            assert(chains_view(out@) =~= seq![strings_view(decl.chain@)]);
        } else {
            assert(chains_view(out@) =~= Seq::<Seq<Seq<char>>>::empty());
        }
    }
    while queue.len() > 0
        invariant
            vis == vis_view(mods.vis@),
            k == decl.krate@,
            bs == softs@,
            walk(walk_of(queue@, seen@, out@), vis, k, glob_bindings@, bs, no_parent).out == goal,
        decreases walk_measure(walk_of(queue@, seen@, out@)),
    {
        let ghost w0 = walk_of(queue@, seen@, out@);
        let c = match queue.pop() {
            Some(c) => c,
            None => return out,
        };
        let ghost cv = strings_view(c@);
        assert(cv == w0.queue.last());
        assert(walk_of(queue@, seen@, out@) == Walk { queue: w0.queue.drop_last(), seen: w0.seen, out: w0.out }) by {
            assert(chains_view(queue@) =~= w0.queue.drop_last());
        }
        let ghost w1 = walk_of(queue@, seen@, out@);
        let mut gi: usize = 0;
        while gi < glob_bindings.len()
            invariant
                gi <= glob_bindings@.len(),
                vis == vis_view(mods.vis@),
                k == decl.krate@,
                cv == strings_view(c@),
                walk_of(queue@, seen@, out@) == visit_globs(w1, vis, k, cv, glob_bindings@.take(gi as int)),
            decreases glob_bindings@.len() - gi,
        {
            proof {
                assert(glob_bindings@.take(gi + 1).drop_last() =~= glob_bindings@.take(gi as int));
                assert(glob_bindings@.take(gi + 1).last() == glob_bindings@[gi as int]);
            }
            match glob_next_exec(mods, decl.krate.as_str(), &c, &glob_bindings[gi]) {
                Some(n) => offer_exec(&mut queue, &mut seen, &mut out, n, glob_bindings[gi].site_public),
                None => {},
            }
            gi = gi + 1;
        }
        assert(glob_bindings@.take(gi as int) =~= glob_bindings@);
        let ghost w2 = walk_of(queue@, seen@, out@);
        let mut bi: usize = 0;
        while bi < softs.len()
            invariant
                bi <= softs@.len(),
                bs == softs@,
                cv == strings_view(c@),
                walk_of(queue@, seen@, out@) == visit_softs(w2, cv, bs.take(bi as int), no_parent),
            decreases softs@.len() - bi,
        {
            proof {
                assert(bs.take(bi + 1).drop_last() =~= bs.take(bi as int));
                assert(bs.take(bi + 1).last() == bs[bi as int]);
            }
            if attaches_exec(&softs[bi], &c, no_parent) {
                let n = copy_chain(&softs[bi].chain);
                offer_exec(&mut queue, &mut seen, &mut out, n, softs[bi].site_public);
            }
            bi = bi + 1;
        }
        assert(bs.take(bi as int) =~= bs);
        proof {
            assert(walk_of(queue@, seen@, out@) == visit(w0, vis, k, glob_bindings@, bs, no_parent));
            lemma_visit_globs_measure(w1, vis, k, cv, glob_bindings@);
            lemma_visit_softs_measure(w2, cv, bs, no_parent);
        }
    }
    out
}

/// The pair key minted for `outer` and `name`: a global `outer::name` for
/// constants and statics, an implementation function otherwise.
pub open spec fn minted_pair(globals: bool, outer: Seq<char>, name: Seq<char>) -> PatternView {
    if globals {
        PatternView::Globals(outer + "::"@ + name)
    } else {
        PatternView::ImplementationFunctions { outer, inner: name }
    }
}

/// The outer a public chain gives: its last module, or the crate's root
/// binding for the crate root.
pub open spec fn chain_outer(c: Seq<Seq<char>>, root: Seq<char>) -> Seq<char> {
    if c.len() > 0 {
        c.last()
    } else {
        root
    }
}

/// The distinct outers of the public chains, ascending.
pub open spec fn chain_outers(chains: Seq<Seq<Seq<char>>>, root: Seq<char>) -> Seq<Seq<char>> {
    sorted_view(distinct(chains.map_values(|c: Seq<Seq<char>>| chain_outer(c, root))))
}

/// The first outer whose minted key is already a known key.
pub open spec fn existing_outer(outers: Seq<Seq<char>>, globals: bool, name: Seq<char>, known: Seq<Seq<char>>) -> Option<Seq<char>>
    decreases outers.len(),
{
    if outers.len() == 0 {
        None
    } else if known.contains(minted_pair(globals, outers[0], name).wire()) {
        Some(outers[0])
    } else {
        existing_outer(outers.subrange(1, outers.len() as int), globals, name, known)
    }
}

/// The rank of a public chain: shorter first, then by its `::` spelling.
pub open spec fn chain_rank(c: Seq<Seq<char>>) -> KeyView {
    KeyView { num: c.len() as int, first: colon_join(c), second: Seq::empty(), tail: 0 }
}

/// The canonical outer of a declaration's pair key: an outer whose key is
/// already known, else the outer of the shortest public chain (ties by
/// spelling).
pub open spec fn canonical_outer(chains: Seq<Seq<Seq<char>>>, root: Seq<char>, globals: bool, name: Seq<char>, known: Seq<Seq<char>>) -> Seq<char> {
    match existing_outer(chain_outers(chains, root), globals, name, known) {
        Some(o) => o,
        None => chain_outer(chains[stable_order(chains.map_values(|c: Seq<Seq<char>>| chain_rank(c)))[0]], root),
    }
}

/// `s` without the occurrences of `c`.
pub open spec fn without(s: Seq<Seq<char>>, c: Seq<char>) -> Seq<Seq<char>>
    decreases s.len(),
{
    if s.len() == 0 {
        Seq::empty()
    } else if s.last() != c {
        without(s.drop_last(), c).push(s.last())
    } else {
        without(s.drop_last(), c)
    }
}

/// The pair key a declaration mints and the alternate outers it records:
/// nothing without a public chain or when the key is filtered out; else the
/// key under the canonical outer, with the other outers and the
/// declaration's own parent module (when different) as aliases.
pub open spec fn pair_mint_view(
    chains: Seq<Seq<Seq<char>>>,
    hard_chain: Seq<Seq<char>>,
    root: Seq<char>,
    globals: bool,
    name: Seq<char>,
    known: Seq<Seq<char>>,
    skips: Seq<String>,
) -> Option<(PatternView, Seq<Seq<char>>)> {
    if chains.len() == 0 {
        None
    } else {
        let canon = canonical_outer(chains, root, globals, name, known);
        let key = minted_pair(globals, canon, name);
        if matches_any_substring(key.wire(), skips) {
            None
        } else {
            let others = without(chain_outers(chains, root), canon);
            Some(
                (
                    key,
                    if hard_chain.len() > 0 && hard_chain.last() != canon {
                        others.push(hard_chain.last())
                    } else {
                        others
                    },
                ),
            )
        }
    }
}

fn minted_pair_exec(globals: bool, outer: &str, name: &str) -> (r: Pattern)
    ensures
        r@ == minted_pair(globals, outer@, name@),
{
    if globals {
        let mut n = outer.to_string();
        push_str(&mut n, "::");
        push_str(&mut n, name);
        Pattern::globals(n.as_str())
    } else {
        Pattern::impl_fn(outer, name)
    }
}

fn chain_outer_exec(c: &Vec<String>, root: &str) -> (r: String)
    ensures
        r@ == chain_outer(strings_view(c@), root@),
{
    if c.len() > 0 {
        c[c.len() - 1].clone()
    } else {
        root.to_string()
    }
}

/// The pair key a declaration with the given public chains mints, and the
/// alternate outers recorded for it (see `pair_mint_view`).
pub fn mint_pair_decision(
    public_chains: &Vec<Vec<String>>,
    hard_chain: &Vec<String>,
    root_outer: &str,
    globals: bool,
    name: &str,
    known_keys: &Vec<String>,
    filters: &FiltersConfig,
) -> (r: Option<(Pattern, Vec<String>)>)
    ensures
        match r {
            Some((k, a)) => pair_mint_view(
                chains_view(public_chains@),
                strings_view(hard_chain@),
                root_outer@,
                globals,
                name@,
                strings_view(known_keys@),
                filters.pattern_skip_substrings@,
            ) == Some((k@, strings_view(a@))),
            None => pair_mint_view(
                chains_view(public_chains@),
                strings_view(hard_chain@),
                root_outer@,
                globals,
                name@,
                strings_view(known_keys@),
                filters.pattern_skip_substrings@,
            ) is None,
        },
{
    if public_chains.len() == 0 {
        return None;
    }
    let ghost cv = chains_view(public_chains@);
    let ghost ofn = |c: Seq<Seq<char>>| chain_outer(c, root_outer@);
    let mut raw: Vec<String> = Vec::new();
    let mut i: usize = 0;
    while i < public_chains.len()
        invariant
            i <= public_chains@.len(),
            cv == chains_view(public_chains@),
            ofn == (|c: Seq<Seq<char>>| chain_outer(c, root_outer@)),
            strings_view(raw@) == cv.take(i as int).map_values(ofn),
        decreases public_chains@.len() - i,
    {
        let o = chain_outer_exec(&public_chains[i], root_outer);
        let ghost before = strings_view(raw@);
        raw.push(o);
        proof {
            assert(strings_view(raw@) =~= before.push(ofn(cv[i as int])));
            assert(cv.take(i + 1).map_values(ofn) =~= cv.take(i as int).map_values(ofn).push(ofn(cv[i as int])));
        }
        i = i + 1;
    }
    assert(cv.take(i as int) =~= cv);
    let outers = sort_strings(&distinct_exec(&raw));
    let ghost ov = strings_view(outers@);
    assert(ov == chain_outers(cv, root_outer@));
    let mut existing: Option<usize> = None;
    let mut j: usize = 0;
    assert(ov.subrange(0, ov.len() as int) =~= ov);
    while j < outers.len()
        invariant_except_break
            existing is None,
        invariant
            j <= outers@.len(),
            ov == strings_view(outers@),
            existing_outer(ov, globals, name@, strings_view(known_keys@)) == existing_outer(
                ov.subrange(j as int, ov.len() as int),
                globals,
                name@,
                strings_view(known_keys@),
            ),
        ensures
            match existing {
                Some(x) => x < outers@.len() && existing_outer(ov, globals, name@, strings_view(known_keys@)) == Some(ov[x as int]),
                None => existing_outer(ov, globals, name@, strings_view(known_keys@)) is None,
            },
        decreases outers@.len() - j,
    {
        let ghost rest = ov.subrange(j as int, ov.len() as int);
        assert(rest[0] == ov[j as int]);
        let key = minted_pair_exec(globals, outers[j].as_str(), name).to_string();
        if strings_contain(known_keys, key.as_str()) {
            existing = Some(j);
            break;
        }
        assert(rest.subrange(1, rest.len() as int) =~= ov.subrange(j + 1, ov.len() as int));
        j = j + 1;
    }
    let canon: String = match existing {
        Some(x) => outers[x].clone(),
        None => {
            let ghost rf = |c: Seq<Seq<char>>| chain_rank(c);
            let mut keys: Vec<SortKey> = Vec::new();
            let mut k: usize = 0;
            while k < public_chains.len()
                invariant
                    k <= public_chains@.len(),
                    cv == chains_view(public_chains@),
                    rf == (|c: Seq<Seq<char>>| chain_rank(c)),
                    keys_view(keys@) == cv.take(k as int).map_values(rf),
                decreases public_chains@.len() - k,
            {
                let c = &public_chains[k];
                let sk = SortKey {
                    num: c.len() as i128,
                    first: join_chain(c, c.len()),
                    second: String::new(),
                    tail: 0,
                };
                let ghost kv = sk@;
                let ghost before = keys_view(keys@);
                keys.push(sk);
                proof {
                    assert(strings_view(c@).take(c@.len() as int) =~= strings_view(c@));
                    assert(kv == rf(cv[k as int]));
                    assert(keys_view(keys@) =~= before.push(kv));
                    assert(cv.take(k + 1).map_values(rf) =~= cv.take(k as int).map_values(rf).push(rf(cv[k as int])));
                }
                k = k + 1;
            }
            assert(cv.take(k as int) =~= cv);
            let ord = stable_order_exec(&keys);
            assert(positions_view(ord@) == stable_order(cv.map_values(rf)));
            assert(positions_view(ord@)[0] == ord@[0] as int);
            chain_outer_exec(&public_chains[ord[0]], root_outer)
        },
    };
    assert(canon@ == canonical_outer(cv, root_outer@, globals, name@, strings_view(known_keys@)));
    let key = minted_pair_exec(globals, canon.as_str(), name);
    if should_skip_pattern(key.to_string().as_str(), filters) {
        return None;
    }
    let mut aliases: Vec<String> = Vec::new();
    let mut m: usize = 0;
    while m < outers.len()
        invariant
            m <= outers@.len(),
            ov == strings_view(outers@),
            strings_view(aliases@) == without(ov.take(m as int), canon@),
        decreases outers@.len() - m,
    {
        proof {
            assert(ov.take(m + 1).drop_last() =~= ov.take(m as int));
            assert(ov.take(m + 1).last() == ov[m as int]);
        }
        if !str_eq(outers[m].as_str(), canon.as_str()) {
            let ghost before = strings_view(aliases@);
            aliases.push(outers[m].clone());
            assert(strings_view(aliases@) =~= before.push(ov[m as int]));
        }
        m = m + 1;
    }
    assert(ov.take(m as int) =~= ov);
    if hard_chain.len() > 0 && !str_eq(hard_chain[hard_chain.len() - 1].as_str(), canon.as_str()) {
        let ghost before = strings_view(aliases@);
        aliases.push(hard_chain[hard_chain.len() - 1].clone());
        assert(strings_view(aliases@) =~= before.push(strings_view(hard_chain@).last()));
    }
    Some((key, aliases))
}

/// A type or trait declaration mints its bare key: the key is not already
/// known, not filtered out, and the declaration has a public chain.
pub open spec fn type_mint_view(key: PatternView, known: Seq<Seq<char>>, skips: Seq<String>, chains: Seq<Seq<Seq<char>>>) -> bool {
    !known.contains(key.wire()) && !matches_any_substring(key.wire(), skips) && chains.len() > 0
}

/// Whether a type or trait declaration mints its bare key `key` (a
/// `structure` or `traits` pattern of its name): the key is not yet known,
/// the filters keep it, and the declaration is reachable through some
/// public chain.
pub fn mint_type_decision(
    key: &Pattern,
    decl: &DeclCandidate,
    name_counts: &Vec<((String, String), usize)>,
    bindings: &Vec<((String, String), Vec<SoftBinding>)>,
    glob_bindings: &Vec<GlobBinding>,
    mods: &ModIndex,
    known_keys: &Vec<String>,
    filters: &FiltersConfig,
) -> (r: bool)
    ensures
        r == type_mint_view(
            key@,
            strings_view(known_keys@),
            filters.pattern_skip_substrings@,
            public_chains_view(
                decl.krate@,
                decl.name@,
                strings_view(decl.chain@),
                decl.hard_public,
                counts_view(name_counts@),
                bindings_view(bindings@),
                glob_bindings@,
                vis_view(mods.vis@),
            ),
        ),
{
    let wire = key.to_string();
    if strings_contain(known_keys, wire.as_str()) {
        return false;
    }
    if should_skip_pattern(wire.as_str(), filters) {
        return false;
    }
    let chains = public_chains_for(decl, name_counts, bindings, glob_bindings, mods);
    chains.len() > 0
}

} // verus!
