//! Picker overlap against a manual ground-truth list: per-target entries with
//! substring aliases, the parsed per-section pick lists, and the matcher.

use vstd::prelude::*;
use crate::resolution::strings_view;
use crate::text::{contains_seq, str_contains, str_eq};
use crate::vocabulary::{distinct, distinct_exec};

verus! {

/// One ground-truth entry: a canonical label plus case-sensitive substring
/// aliases checked against picker output `kind:name` strings.
#[derive(Debug, Clone)]
pub struct GroundTruthEntry {
    pub label: String,
    pub aliases: Vec<String>,
}

/// One target's ground-truth list plus an optional skip reason.
#[derive(Debug, Clone)]
pub struct TargetEntry {
    pub ground_truth: Vec<GroundTruthEntry>,
    pub skip_reason: Option<String>,
}

/// Per-section pick lists parsed from an orientation document's S5.1..5.6
/// sub-sections.
#[derive(Debug, Clone)]
pub struct PicksDict {
    pub architecture: Vec<String>,
    pub public: Vec<String>,
    pub inter_crate: Vec<String>,
    pub internals: Vec<String>,
    pub intra_crate: Vec<String>,
    pub inner_crate: Vec<String>,
}

/// Per-entry match result: the label, the matched picks (deduplicated, in
/// original order), and whether any pick matched.
#[derive(Debug, Clone)]
pub struct MatchResult {
    pub label: String,
    pub matched_picks: Vec<String>,
    pub matched: bool,
}

/// The views of a list of strings.
pub open spec fn views(v: Seq<String>) -> Seq<Seq<char>> {
    v.map_values(|s: String| s@)
}

impl PicksDict {
    /// All six lists concatenated in section order.
    pub open spec fn all_view(self) -> Seq<Seq<char>> {
        views(self.architecture@) + views(self.public@) + views(self.inter_crate@) + views(
            self.internals@,
        ) + views(self.intra_crate@) + views(self.inner_crate@)
    }

    /// The union of all six pick lists in original section order.
    pub fn all(&self) -> (r: Vec<String>)
        ensures
            views(r@) == self.all_view(),
    {
        let mut out: Vec<String> = Vec::new();
        append_all(&mut out, &self.architecture);
        append_all(&mut out, &self.public);
        append_all(&mut out, &self.inter_crate);
        append_all(&mut out, &self.internals);
        append_all(&mut out, &self.intra_crate);
        append_all(&mut out, &self.inner_crate);
        out
    }
}

fn append_all(out: &mut Vec<String>, v: &Vec<String>)
    ensures
        views(final(out)@) == views(old(out)@) + views(v@),
{
    let ghost start = out@;
    let mut i: usize = 0;
    while i < v.len()
        invariant
            i <= v@.len(),
            views(out@) == views(start) + views(v@.take(i as int)),
        decreases v@.len() - i,
    {
        let ghost before = out@;
        let c = v[i].clone();
        assert(c == v@[i as int]);
        out.push(c);
        assert(out@ == before.push(v@[i as int]));
        assert(v@.take(i + 1) =~= v@.take(i as int).push(v@[i as int]));
        assert(views(before.push(v@[i as int])) =~= views(before).push(v@[i as int]@));
        assert(views(v@.take(i as int).push(v@[i as int])) =~= views(v@.take(i as int)).push(
            v@[i as int]@,
        ));
        assert(views(out@) =~= views(start) + views(v@.take(i + 1)));
        i = i + 1;
    }
    assert(v@.take(v@.len() as int) =~= v@);
}

/// A pick matches when one of the aliases is a substring of it.
pub open spec fn pick_matches(pick: Seq<char>, aliases: Seq<Seq<char>>) -> bool {
    exists|a: int| 0 <= a < aliases.len() && contains_seq(pick, #[trigger] aliases[a])
}

/// The picks among the first `n` that match one of the aliases,
/// deduplicated, in first-occurrence order.
pub open spec fn matched_picks_view(picks: Seq<Seq<char>>, aliases: Seq<Seq<char>>, n: int) -> Seq<
    Seq<char>,
>
    decreases n,
{
    if n <= 0 {
        Seq::empty()
    } else {
        let d = matched_picks_view(picks, aliases, n - 1);
        let p = picks[n - 1];
        if pick_matches(p, aliases) && !d.contains(p) {
            d.push(p)
        } else {
            d
        }
    }
}

/// The match result of one ground-truth entry against a pick list.
pub open spec fn match_entry_view(picks: Seq<Seq<char>>, entry: GroundTruthEntry) -> (
    Seq<char>,
    Seq<Seq<char>>,
    bool,
) {
    let m = matched_picks_view(picks, views(entry.aliases@), picks.len() as int);
    (entry.label@, m, m.len() > 0)
}

fn pick_matches_exec(pick: &String, aliases: &Vec<String>) -> (r: bool)
    ensures
        r == pick_matches(pick@, views(aliases@)),
{
    let mut j: usize = 0;
    while j < aliases.len()
        invariant
            j <= aliases@.len(),
            forall|k: int| 0 <= k < j ==> !contains_seq(pick@, #[trigger] views(aliases@)[k]),
        decreases aliases@.len() - j,
    {
        if str_contains(pick.as_str(), aliases[j].as_str()) {
            assert(contains_seq(pick@, views(aliases@)[j as int]));
            return true;
        }
        j = j + 1;
    }
    false
}

fn contains_string(v: &Vec<String>, s: &String) -> (r: bool)
    ensures
        r == views(v@).contains(s@),
{
    let mut i: usize = 0;
    while i < v.len()
        invariant
            i <= v@.len(),
            forall|k: int| 0 <= k < i ==> views(v@)[k] != s@,
        decreases v@.len() - i,
    {
        if str_eq(v[i].as_str(), s.as_str()) {
            assert(views(v@)[i as int] == s@);
            return true;
        }
        i = i + 1;
    }
    false
}

/// For each ground-truth entry, the picks (from the combined list of all six
/// sections) that one of its aliases is a substring of, deduplicated in
/// first-occurrence order, and whether there is any.
pub fn match_ground_truth(picks: &PicksDict, ground_truth: &Vec<GroundTruthEntry>) -> (r: Vec<
    MatchResult,
>)
    ensures
        r@.len() == ground_truth@.len(),
        forall|g: int|
            0 <= g < r@.len() ==> {
                let want = match_entry_view(picks.all_view(), #[trigger] ground_truth@[g]);
                &&& r@[g].label@ == want.0
                &&& views(r@[g].matched_picks@) == want.1
                &&& r@[g].matched == want.2
            },
{
    let all_picks = picks.all();
    let ghost all_view = views(all_picks@);
    let mut results: Vec<MatchResult> = Vec::new();
    let mut g: usize = 0;
    while g < ground_truth.len()
        invariant
            g <= ground_truth@.len(),
            all_view == picks.all_view(),
            all_view == views(all_picks@),
            results@.len() == g,
            forall|h: int|
                0 <= h < g ==> {
                    let want = match_entry_view(all_view, #[trigger] ground_truth@[h]);
                    &&& results@[h].label@ == want.0
                    &&& views(results@[h].matched_picks@) == want.1
                    &&& results@[h].matched == want.2
                },
        decreases ground_truth@.len() - g,
    {
        let gt = &ground_truth[g];
        let mut deduped: Vec<String> = Vec::new();
        let mut k: usize = 0;
        while k < all_picks.len()
            invariant
                k <= all_picks@.len(),
                all_view == views(all_picks@),
                views(deduped@) == matched_picks_view(all_view, views(gt.aliases@), k as int),
            decreases all_picks@.len() - k,
        {
            let pick = &all_picks[k];
            if pick_matches_exec(pick, &gt.aliases) && !contains_string(&deduped, pick) {
                deduped.push(pick.clone());
                assert(views(deduped@) =~= matched_picks_view(
                    all_view,
                    views(gt.aliases@),
                    k + 1,
                ));
            }
            k = k + 1;
        }
        let matched = deduped.len() > 0;
        results.push(MatchResult { label: gt.label.clone(), matched_picks: deduped, matched });
        g = g + 1;
    }
    results
}

/// What a match result holds: its picks are distinct, each is one of the
/// target's picks and matches an alias, and every pick that matches an alias
/// is among them.
pub proof fn lemma_matched_picks_characterized(
    picks: Seq<Seq<char>>,
    aliases: Seq<Seq<char>>,
    n: int,
)
    requires
        0 <= n <= picks.len(),
    ensures
        matched_picks_view(picks, aliases, n).no_duplicates(),
        forall|x: Seq<char>|
            matched_picks_view(picks, aliases, n).contains(x) <==> (exists|i: int|
                0 <= i < n && picks[i] == x) && pick_matches(x, aliases),
    decreases n,
{
    if n > 0 {
        lemma_matched_picks_characterized(picks, aliases, n - 1);
        let d = matched_picks_view(picks, aliases, n - 1);
        let p = picks[n - 1];
        assert forall|x: Seq<char>|
            matched_picks_view(picks, aliases, n).contains(x) <==> (exists|i: int|
                0 <= i < n && picks[i] == x) && pick_matches(x, aliases) by {
            if pick_matches(p, aliases) && !d.contains(p) {
                assert(d.push(p).contains(x) <==> (d.contains(x) || x == p)) by {
                    if x == p {
                        assert(d.push(p)[d.len() as int] == p);
                    }
                    if d.push(p).contains(x) {
                        let w = choose|w: int| 0 <= w < d.push(p).len() && d.push(p)[w] == x;
                        if w < d.len() {
                            assert(d[w] == x);
                        }
                    }
                    if d.contains(x) {
                        let w = choose|w: int| 0 <= w < d.len() && d[w] == x;
                        assert(d.push(p)[w] == x);
                    }
                }
            }
            if (exists|i: int| 0 <= i < n && picks[i] == x) && pick_matches(x, aliases) {
                let i = choose|i: int| 0 <= i < n && picks[i] == x;
                if i < n - 1 {
                    assert(exists|i2: int| 0 <= i2 < n - 1 && picks[i2] == x);
                }
            }
            if (exists|i: int| 0 <= i < n - 1 && picks[i] == x) {
                let i = choose|i: int| 0 <= i < n - 1 && picks[i] == x;
                assert(0 <= i < n && picks[i] == x);
            }
        }
        if pick_matches(p, aliases) && !d.contains(p) {
            assert(d.push(p).no_duplicates()) by {
                assert forall|a: int, b: int|
                    0 <= a < d.push(p).len() && 0 <= b < d.push(p).len() && a != b implies d.push(
                    p,
                )[a] != d.push(p)[b] by {
                    if a == d.len() {
                        assert(d.contains(d[b]));
                    } else if b == d.len() {
                        assert(d.contains(d[a]));
                    }
                }
            }
        }
    }
}

/// How many of the match results matched.
pub open spec fn matched_count(ms: Seq<MatchResult>) -> nat
    decreases ms.len(),
{
    if ms.len() == 0 {
        0
    } else {
        matched_count(ms.drop_last()) + if ms.last().matched {
            1nat
        } else {
            0nat
        }
    }
}

/// The counts of one target's overlap score: the distinct picks across all
/// sections, the ground-truth size, the matched entries, and each entry's
/// match.
#[derive(Debug, Clone)]
pub struct TargetCounts {
    pub n_total_picks_union: usize,
    pub n_ground_truth: usize,
    pub n_matched: usize,
    pub matches: Vec<MatchResult>,
}

/// Scores one target's picks against its ground truth: the number of
/// distinct picks, the ground-truth size, the per-entry matches and how
/// many entries matched.
pub fn score_counts(picks: &PicksDict, ground_truth: &Vec<GroundTruthEntry>) -> (r: TargetCounts)
    ensures
        r.n_total_picks_union == distinct(picks.all_view()).len(),
        r.n_ground_truth == ground_truth@.len(),
        r.matches@.len() == ground_truth@.len(),
        forall|g: int|
            0 <= g < r.matches@.len() ==> {
                let want = match_entry_view(picks.all_view(), #[trigger] ground_truth@[g]);
                &&& r.matches@[g].label@ == want.0
                &&& views(r.matches@[g].matched_picks@) == want.1
                &&& r.matches@[g].matched == want.2
            },
        r.n_matched == matched_count(r.matches@),
{
    let matches = match_ground_truth(picks, ground_truth);
    let mut n: usize = 0;
    let mut i: usize = 0;
    while i < matches.len()
        invariant
            i <= matches@.len(),
            n == matched_count(matches@.take(i as int)),
            n <= i,
        decreases matches@.len() - i,
    {
        proof {
            assert(matches@.take(i + 1).drop_last() =~= matches@.take(i as int));
            assert(matches@.take(i + 1).last() == matches@[i as int]);
        }
        if matches[i].matched {
            n = n + 1;
        }
        i = i + 1;
    }
    assert(matches@.take(i as int) =~= matches@);
    let all = picks.all();
    let uniq = distinct_exec(&all);
    assert(strings_view(all@) == views(all@));
    TargetCounts { n_total_picks_union: uniq.len(), n_ground_truth: ground_truth.len(), n_matched: n, matches }
}

/// A matched pick is one of the first `n` picks.
proof fn lemma_matched_witness(picks: Seq<Seq<char>>, aliases: Seq<Seq<char>>, n: int, k: int) -> (w: int)
    requires
        0 <= n <= picks.len(),
        0 <= k < matched_picks_view(picks, aliases, n).len(),
    ensures
        0 <= w < n,
        picks[w] == matched_picks_view(picks, aliases, n)[k],
    decreases n,
{
    let d = matched_picks_view(picks, aliases, n - 1);
    if k < d.len() {
        assert(matched_picks_view(picks, aliases, n)[k] == d[k]);
        lemma_matched_witness(picks, aliases, n - 1, k)
    } else {
        n - 1
    }
}

/// `i` is the first position of `x` in `s`.
pub open spec fn first_at(s: Seq<Seq<char>>, x: Seq<char>, i: int) -> bool {
    &&& 0 <= i < s.len()
    &&& s[i] == x
    &&& forall|j: int| 0 <= j < i ==> s[j] != x
}

/// The matched picks come in first-occurrence order: a pick listed before
/// another first occurs earlier among the picks.
pub proof fn lemma_matched_picks_first_order(picks: Seq<Seq<char>>, aliases: Seq<Seq<char>>, n: int)
    requires
        0 <= n <= picks.len(),
    ensures
        forall|a: int, b: int, i: int, j: int|
            0 <= a < b < matched_picks_view(picks, aliases, n).len() && #[trigger] first_at(
                picks,
                matched_picks_view(picks, aliases, n)[a],
                i,
            ) && #[trigger] first_at(picks, matched_picks_view(picks, aliases, n)[b], j) ==> i < j,
    decreases n,
{
    if n > 0 {
        lemma_matched_picks_first_order(picks, aliases, n - 1);
        lemma_matched_picks_characterized(picks, aliases, n - 1);
        let d = matched_picks_view(picks, aliases, n - 1);
        let p = picks[n - 1];
        if pick_matches(p, aliases) && !d.contains(p) {
            let m = d.push(p);
            assert forall|a: int, b: int, i: int, j: int|
                0 <= a < b < m.len() && #[trigger] first_at(picks, m[a], i) && #[trigger] first_at(picks, m[b], j)
                    implies i < j by {
                if b == d.len() {
                    assert(m[b] == p);
                    assert(m[a] == d[a]);
                    let w = lemma_matched_witness(picks, aliases, n - 1, a);
                    assert(i <= w);
                    if j < n - 1 {
                        assert(picks[j] == p);
                        assert(d.contains(p));
                    }
                } else {
                    assert(m[a] == d[a] && m[b] == d[b]);
                }
            }
        }
    }
}

proof fn lemma_concat_contains(a: Seq<Seq<char>>, b: Seq<Seq<char>>, x: Seq<char>)
    ensures
        (a + b).contains(x) <==> a.contains(x) || b.contains(x),
{
    if (a + b).contains(x) {
        let k = choose|k: int| 0 <= k < (a + b).len() && (a + b)[k] == x;
        if k < a.len() {
            assert(a[k] == x);
        } else {
            assert(b[k - a.len()] == x);
        }
    }
    if a.contains(x) {
        let k = choose|k: int| 0 <= k < a.len() && a[k] == x;
        assert((a + b)[k] == x);
    }
    if b.contains(x) {
        let k = choose|k: int| 0 <= k < b.len() && b[k] == x;
        assert((a + b)[a.len() + k] == x);
    }
}

/// The combined pick list holds exactly the picks of the six sections, each
/// as often as its section lists it: its length is the sum of the sections'
/// lengths, and a pick is in it exactly when some section lists it.
pub proof fn lemma_all_holds_every_section(d: PicksDict)
    ensures
        d.all_view().len() == d.architecture@.len() + d.public@.len() + d.inter_crate@.len()
            + d.internals@.len() + d.intra_crate@.len() + d.inner_crate@.len(),
        forall|x: Seq<char>|
            #[trigger] d.all_view().contains(x) <==> views(d.architecture@).contains(x) || views(
                d.public@,
            ).contains(x) || views(d.inter_crate@).contains(x) || views(d.internals@).contains(x) || views(
                d.intra_crate@,
            ).contains(x) || views(d.inner_crate@).contains(x),
{
    let a = views(d.architecture@);
    let b = views(d.public@);
    let c = views(d.inter_crate@);
    let e = views(d.internals@);
    let f = views(d.intra_crate@);
    let g = views(d.inner_crate@);
    assert forall|x: Seq<char>| #[trigger] d.all_view().contains(x) <==> a.contains(x) || b.contains(x) || c.contains(
        x,
    ) || e.contains(x) || f.contains(x) || g.contains(x) by {
        lemma_concat_contains(a, b, x);
        lemma_concat_contains(a + b, c, x);
        lemma_concat_contains(a + b + c, e, x);
        lemma_concat_contains(a + b + c + e, f, x);
        lemma_concat_contains(a + b + c + e + f, g, x);
    }
}

/// A ground-truth entry is matched by a pick of any of the six sections: when
/// one of its aliases is a substring of a pick that some section lists, the
/// entry is matched and that pick is among its matched picks.
pub proof fn lemma_entry_matched_by_any_section(d: PicksDict, entry: GroundTruthEntry, x: Seq<char>)
    requires
        views(d.architecture@).contains(x) || views(d.public@).contains(x) || views(d.inter_crate@).contains(x)
            || views(d.internals@).contains(x) || views(d.intra_crate@).contains(x) || views(
            d.inner_crate@,
        ).contains(x),
        exists|a: int| 0 <= a < entry.aliases@.len() && contains_seq(x, #[trigger] entry.aliases@[a]@),
    ensures
        match_entry_view(d.all_view(), entry).2,
        match_entry_view(d.all_view(), entry).1.contains(x),
{
    lemma_all_holds_every_section(d);
    let all = d.all_view();
    assert(all.contains(x));
    let i = choose|i: int| 0 <= i < all.len() && all[i] == x;
    let al = views(entry.aliases@);
    let a = choose|a: int| 0 <= a < entry.aliases@.len() && contains_seq(x, #[trigger] entry.aliases@[a]@);
    assert(al[a] == entry.aliases@[a]@);
    assert(pick_matches(x, al));
    lemma_matched_picks_characterized(all, al, all.len() as int);
    let m = matched_picks_view(all, al, all.len() as int);
    assert(m.contains(x));
    assert(m.len() > 0);
}

} // verus!
