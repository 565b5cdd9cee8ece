//! Folding consumer demand into per-target weights: each demanded name and
//! each demanded pair counts one more consumer and its sites (at least one).

use vstd::prelude::*;
use crate::assoc::{first_value, lemma_first_value_push, lemma_first_value_step, lemma_first_value_update};
use crate::demand::{DemandRecord, DemandReport};
use crate::text::str_eq;

verus! {

/// The weight of one name or pair: how many consumers demand it and at how
/// many sites.
#[derive(Debug, Clone, Copy)]
pub struct WeightCell {
    pub consumers: usize,
    pub sites: usize,
}

/// One folded demand pass: the consumer and the pass it came from.
#[derive(Debug, Clone)]
pub struct WeightSource {
    pub consumer: String,
    pub pass: String,
}

/// The weights of one target: the passes folded in, and the cells per
/// demanded name and per demanded pair.
#[derive(Debug, Clone)]
pub struct TargetWeights {
    pub sources: Vec<WeightSource>,
    pub names: Vec<(String, WeightCell)>,
    pub pairs: Vec<(String, WeightCell)>,
}

/// The weights of every target.
#[derive(Debug, Clone)]
pub struct WeightBlob {
    pub targets: Vec<(String, TargetWeights)>,
}

/// The views of a list of keyed cells.
pub open spec fn cells_view(v: Seq<(String, WeightCell)>) -> Seq<(Seq<char>, (nat, nat))> {
    v.map_values(|e: (String, WeightCell)| (e.0@, (e.1.consumers as nat, e.1.sites as nat)))
}

/// The cell of `k` (zero when absent).
pub open spec fn cell_of(s: Seq<(Seq<char>, (nat, nat))>, k: Seq<char>) -> (nat, nat) {
    match first_value(s, k) {
        Some(c) => c,
        None => (0, 0),
    }
}

/// Sites count at least one.
pub open spec fn at_least_one(n: nat) -> nat {
    if n == 0 {
        1
    } else {
        n
    }
}

/// How many of the demands are for `k`.
pub open spec fn demands_of(ds: Seq<(Seq<char>, nat)>, k: Seq<char>) -> nat
    decreases ds.len(),
{
    if ds.len() == 0 {
        0
    } else {
        demands_of(ds.drop_last(), k) + if ds.last().0 == k {
            1nat
        } else {
            0nat
        }
    }
}

/// The sites of the demands for `k`, each at least one.
pub open spec fn sites_of(ds: Seq<(Seq<char>, nat)>, k: Seq<char>) -> nat
    decreases ds.len(),
{
    if ds.len() == 0 {
        0
    } else {
        sites_of(ds.drop_last(), k) + if ds.last().0 == k {
            at_least_one(ds.last().1)
        } else {
            0nat
        }
    }
}

/// The (name, sites) demands of a list of records.
pub open spec fn record_demands(v: Seq<DemandRecord>) -> Seq<(Seq<char>, nat)> {
    v.map_values(|r: DemandRecord| (r.name@, r.sites as nat))
}

/// The (pair, sites) demands of a pair-site list.
pub open spec fn pair_demands(v: Seq<(String, usize)>) -> Seq<(Seq<char>, nat)> {
    v.map_values(|p: (String, usize)| (p.0@, p.1 as nat))
}

/// Every cell can take the demands without overflowing.
pub open spec fn cells_fit(cells: Seq<(Seq<char>, (nat, nat))>, ds: Seq<(Seq<char>, nat)>) -> bool {
    forall|k: Seq<char>|
        cell_of(cells, k).0 + #[trigger] demands_of(ds, k) <= usize::MAX && cell_of(cells, k).1
            + sites_of(ds, k) <= usize::MAX
}

/// The cells after folding in the demands: every key gains its demand
/// count and sites.
pub open spec fn cells_folded(
    before: Seq<(Seq<char>, (nat, nat))>,
    after: Seq<(Seq<char>, (nat, nat))>,
    ds: Seq<(Seq<char>, nat)>,
) -> bool {
    forall|k: Seq<char>|
        #[trigger] cell_of(after, k) == (
            cell_of(before, k).0 + demands_of(ds, k),
            cell_of(before, k).1 + sites_of(ds, k),
        )
}

fn bump(cells: &mut Vec<(String, WeightCell)>, key: &String, sites: usize)
    requires
        cell_of(cells_view(old(cells)@), key@).0 + 1 <= usize::MAX,
        cell_of(cells_view(old(cells)@), key@).1 + at_least_one(sites as nat) <= usize::MAX,
    ensures
        forall|k: Seq<char>|
            #[trigger] cell_of(cells_view(final(cells)@), k) == (if k == key@ {
                (
                    cell_of(cells_view(old(cells)@), k).0 + 1,
                    cell_of(cells_view(old(cells)@), k).1 + at_least_one(sites as nat),
                )
            } else {
                cell_of(cells_view(old(cells)@), k)
            }),
{
    let ghost s = cells_view(cells@);
    let add: usize = if sites == 0 {
        1
    } else {
        sites
    };
    let mut i: usize = 0;
    while i < cells.len()
        invariant
            i <= cells@.len(),
            s == cells_view(cells@),
            s == cells_view(old(cells)@),
            first_value(s.take(i as int), key@) is None,
            add as nat == at_least_one(sites as nat),
            cell_of(s, key@).0 + 1 <= usize::MAX,
            cell_of(s, key@).1 + at_least_one(sites as nat) <= usize::MAX,
        decreases cells@.len() - i,
    {
        proof {
            lemma_first_value_step(s, i as int, key@);
        }
        if str_eq(cells[i].0.as_str(), key.as_str()) {
            proof {
                lemma_first_value_step(s, i as int, key@);
                crate::assoc::lemma_first_value_prefix(s, i + 1, key@);
            }
            let c = cells[i].1;
            assert(s[i as int] == (key@, (c.consumers as nat, c.sites as nat)));
            assert(cell_of(s, key@) == (c.consumers as nat, c.sites as nat));
            assert(add as nat == at_least_one(sites as nat));
            let nc = WeightCell { consumers: c.consumers + 1, sites: c.sites + add };
            let kk = cells[i].0.clone();
            assert((nc.consumers as nat, nc.sites as nat) == (
                cell_of(s, key@).0 + 1,
                cell_of(s, key@).1 + at_least_one(sites as nat),
            ));
            cells.set(i, (kk, nc));
            assert(cells_view(cells@) =~= s.update(
                i as int,
                (key@, (nc.consumers as nat, nc.sites as nat)),
            ));
            proof {
                assert forall|k: Seq<char>|
                    #[trigger] cell_of(cells_view(cells@), k) == (if k == key@ {
                        (cell_of(s, k).0 + 1, cell_of(s, k).1 + at_least_one(sites as nat))
                    } else {
                        cell_of(s, k)
                    }) by {
                    lemma_first_value_update(s, i as int, key@, (nc.consumers as nat, nc.sites as nat), k);
                }
            }
            return;
        }
        i = i + 1;
    }
    assert(s.take(i as int) =~= s);
    let nc = WeightCell { consumers: 1, sites: add };
    cells.push((key.clone(), nc));
    assert(cells_view(cells@) =~= s.push((key@, (1nat, add as nat))));
    proof {
        assert forall|k: Seq<char>|
            #[trigger] cell_of(cells_view(cells@), k) == (if k == key@ {
                (cell_of(s, k).0 + 1, cell_of(s, k).1 + at_least_one(sites as nat))
            } else {
                cell_of(s, k)
            }) by {
            lemma_first_value_push(s, (key@, (1nat, add as nat)), k);
        }
    }
}

proof fn lemma_demands_step(ds: Seq<(Seq<char>, nat)>, j: int, k: Seq<char>)
    requires
        0 <= j < ds.len(),
    ensures
        demands_of(ds.take(j + 1), k) == demands_of(ds.take(j), k) + if ds[j].0 == k {
            1nat
        } else {
            0nat
        },
        sites_of(ds.take(j + 1), k) == sites_of(ds.take(j), k) + if ds[j].0 == k {
            at_least_one(ds[j].1)
        } else {
            0nat
        },
{
    assert(ds.take(j + 1).drop_last() =~= ds.take(j));
}

proof fn lemma_demands_prefix_le(ds: Seq<(Seq<char>, nat)>, j: int, k: Seq<char>)
    requires
        0 <= j <= ds.len(),
    ensures
        demands_of(ds.take(j), k) <= demands_of(ds, k),
        sites_of(ds.take(j), k) <= sites_of(ds, k),
    decreases ds.len() - j,
{
    if j < ds.len() {
        lemma_demands_step(ds, j, k);
        lemma_demands_prefix_le(ds, j + 1, k);
    } else {
        assert(ds.take(j) =~= ds);
    }
}

fn fold_cells(cells: &mut Vec<(String, WeightCell)>, demands: &Vec<(String, usize)>)
    requires
        cells_fit(cells_view(old(cells)@), pair_demands(demands@)),
    ensures
        cells_folded(cells_view(old(cells)@), cells_view(final(cells)@), pair_demands(demands@)),
{
    let ghost start = cells_view(cells@);
    let ghost ds = pair_demands(demands@);
    let mut j: usize = 0;
    while j < demands.len()
        invariant
            j <= demands@.len(),
            ds == pair_demands(demands@),
            cells_fit(start, ds),
            cells_folded(start, cells_view(cells@), ds.take(j as int)),
        decreases demands@.len() - j,
    {
        let ghost before = cells_view(cells@);
        proof {
            let k = demands@[j as int].0@;
            lemma_demands_prefix_le(ds, j + 1, k);
            lemma_demands_step(ds, j as int, k);
            assert(cell_of(before, k) == (
                cell_of(start, k).0 + demands_of(ds.take(j as int), k),
                cell_of(start, k).1 + sites_of(ds.take(j as int), k),
            ));
            assert(demands_of(ds, k) >= 0);
        }
        bump(cells, &demands[j].0, demands[j].1);
        proof {
            assert forall|k: Seq<char>|
                #[trigger] cell_of(cells_view(cells@), k) == (
                    cell_of(start, k).0 + demands_of(ds.take(j + 1), k),
                    cell_of(start, k).1 + sites_of(ds.take(j + 1), k),
                ) by {
                lemma_demands_step(ds, j as int, k);
                assert(cell_of(before, k) == (
                    cell_of(start, k).0 + demands_of(ds.take(j as int), k),
                    cell_of(start, k).1 + sites_of(ds.take(j as int), k),
                ));
            }
        }
        j = j + 1;
    }
    assert(ds.take(j as int) =~= ds);
}

/// The (name, sites) pairs of a report's served and missed names, in
/// that order.
pub open spec fn report_name_demands(report: DemandReport) -> Seq<(Seq<char>, nat)> {
    record_demands(report.hits@ + report.summary.misses@)
}

/// The weights a target starts from: no sources and no cells.
pub open spec fn target_weights_of(ts: Seq<(String, TargetWeights)>, target: Seq<char>) -> Option<TargetWeights> {
    first_value(ts.map_values(|e: (String, TargetWeights)| (e.0@, e.1)), target)
}

fn name_demands(report: &DemandReport) -> (r: Vec<(String, usize)>)
    ensures
        pair_demands(r@) == report_name_demands(*report),
{
    let mut r: Vec<(String, usize)> = Vec::new();
    let ghost all = report.hits@ + report.summary.misses@;
    let mut i: usize = 0;
    while i < report.hits.len()
        invariant
            i <= report.hits@.len(),
            all == report.hits@ + report.summary.misses@,
            pair_demands(r@) == record_demands(all.take(i as int)),
        decreases report.hits@.len() - i,
    {
        let ghost r0 = pair_demands(r@);
        r.push((report.hits[i].name.clone(), report.hits[i].sites));
        assert(all.take(i + 1) =~= all.take(i as int).push(report.hits@[i as int]));
        assert(pair_demands(r@) =~= r0.push((report.hits@[i as int].name@, report.hits@[i as int].sites as nat)));
        assert(pair_demands(r@) =~= record_demands(all.take(i + 1)));
        i = i + 1;
    }
    let mut j: usize = 0;
    let n = report.hits.len();
    while j < report.summary.misses.len()
        invariant
            j <= report.summary.misses@.len(),
            n == report.hits@.len(),
            all == report.hits@ + report.summary.misses@,
            pair_demands(r@) == record_demands(all.take(n + j)),
        decreases report.summary.misses@.len() - j,
    {
        let ghost r0 = pair_demands(r@);
        r.push((report.summary.misses[j].name.clone(), report.summary.misses[j].sites));
        assert(all.take(n + j + 1) =~= all.take(n + j).push(report.summary.misses@[j as int]));
        assert(pair_demands(r@) =~= r0.push(
            (report.summary.misses@[j as int].name@, report.summary.misses@[j as int].sites as nat),
        ));
        assert(pair_demands(r@) =~= record_demands(all.take(n + j + 1)));
        j = j + 1;
    }
    assert(all.take(n + j) =~= all);
    r
}

/// Folds one consumer's demand report into the target's weights: the pass
/// is recorded as a source, and every demanded name (served or missed) and
/// every demanded pair counts one more consumer and its sites (at least
/// one); other targets are untouched.
pub fn fold_weights(blob: &mut WeightBlob, target: &str, consumer: &str, pass: &str, report: &DemandReport)
    requires
        ({
            let tw = target_weights_of(old(blob).targets@, target@);
            let names = match tw {
                Some(t) => cells_view(t.names@),
                None => Seq::empty(),
            };
            let pairs = match tw {
                Some(t) => cells_view(t.pairs@),
                None => Seq::empty(),
            };
            cells_fit(names, report_name_demands(*report)) && cells_fit(pairs, pair_demands(report.pair_sites@))
        }),
    ensures
        ({
            let tw0 = target_weights_of(old(blob).targets@, target@);
            let tw1 = target_weights_of(final(blob).targets@, target@);
            &&& tw1 is Some
            &&& forall|k: Seq<char>|
                k != target@ ==> #[trigger] target_weights_of(final(blob).targets@, k)
                    == target_weights_of(old(blob).targets@, k)
            &&& tw1->Some_0.sources@.map_values(|w: WeightSource| (w.consumer@, w.pass@)) == (match tw0 {
                Some(t) => t.sources@.map_values(|w: WeightSource| (w.consumer@, w.pass@)),
                None => Seq::empty(),
            }).push((consumer@, pass@))
            &&& cells_folded(
                match tw0 {
                    Some(t) => cells_view(t.names@),
                    None => Seq::empty(),
                },
                cells_view(tw1->Some_0.names@),
                report_name_demands(*report),
            )
            &&& cells_folded(
                match tw0 {
                    Some(t) => cells_view(t.pairs@),
                    None => Seq::empty(),
                },
                cells_view(tw1->Some_0.pairs@),
                pair_demands(report.pair_sites@),
            )
        }),
{
    let ghost ts = blob.targets@.map_values(|e: (String, TargetWeights)| (e.0@, e.1));
    let mut i: usize = 0;
    while i < blob.targets.len()
        invariant
            i <= blob.targets@.len(),
            ts == blob.targets@.map_values(|e: (String, TargetWeights)| (e.0@, e.1)),
            first_value(ts.take(i as int), target@) is None,
        ensures
            i <= blob.targets@.len(),
            first_value(ts.take(i as int), target@) is None,
            i < blob.targets@.len() ==> ts[i as int].0 == target@,
        decreases blob.targets@.len() - i,
    {
        proof {
            lemma_first_value_step(ts, i as int, target@);
        }
        if str_eq(blob.targets[i].0.as_str(), target) {
            break;
        }
        i = i + 1;
    }
    proof {
        if i < blob.targets@.len() {
            lemma_first_value_step(ts, i as int, target@);
            crate::assoc::lemma_first_value_prefix(ts, i + 1, target@);
            assert(first_value(ts, target@) == Some(ts[i as int].1));
        } else {
            assert(ts.take(i as int) =~= ts);
        }
    }
    let ghost found = i < blob.targets@.len();
    if i == blob.targets.len() {
        assert(ts.take(i as int) =~= ts);
        let fresh = TargetWeights { sources: Vec::new(), names: Vec::new(), pairs: Vec::new() };
        blob.targets.push((target.to_owned(), fresh));
        proof {
            lemma_first_value_push(ts, (target@, fresh), target@);
        }
    }
    let ghost ts1 = blob.targets@.map_values(|e: (String, TargetWeights)| (e.0@, e.1));
    proof {
        if !found {
            assert(ts1 =~= ts.push((target@, blob.targets@[i as int].1)));
            assert(ts1.take(i as int) =~= ts);
            assert forall|k: Seq<char>| k != target@ implies #[trigger] first_value(ts1, k) == first_value(ts, k) by {
                lemma_first_value_push(ts, (target@, blob.targets@[i as int].1), k);
            }
        } else {
            assert(ts1 == ts);
        }
        assert(ts1[i as int].0 == target@);
        assert(first_value(ts1.take(i as int), target@) is None);
    }
    let (key, mut tw) = blob.targets.remove(i);
    let ghost tw_start = tw;
    assert(tw_start == ts1[i as int].1);
    proof {
        if !found {
            assert(tw_start.names@.len() == 0 && tw_start.pairs@.len() == 0);
            assert(cells_view(tw_start.names@) =~= Seq::<(Seq<char>, (nat, nat))>::empty());
            assert(cells_view(tw_start.pairs@) =~= Seq::<(Seq<char>, (nat, nat))>::empty());
        }
    }
    tw.sources.push(WeightSource { consumer: consumer.to_owned(), pass: pass.to_owned() });
    let nd = name_demands(report);
    fold_cells(&mut tw.names, &nd);
    fold_cells(&mut tw.pairs, &report.pair_sites);
    let ghost tw_end = tw;
    blob.targets.insert(i, (key, tw));
    proof {
        let ts2 = blob.targets@.map_values(|e: (String, TargetWeights)| (e.0@, e.1));
        assert(ts2 =~= ts1.update(i as int, (target@, tw_end)));
        assert forall|k: Seq<char>| #[trigger] first_value(ts2, k) == (if k == target@ {
            Some(tw_end)
        } else {
            first_value(ts1, k)
        }) by {
            crate::assoc::lemma_first_value_update(ts1, i as int, target@, tw_end, k);
        }
        assert(tw_end.sources@.map_values(|w: WeightSource| (w.consumer@, w.pass@)) =~= tw_start.sources@.map_values(
            |w: WeightSource| (w.consumer@, w.pass@),
        ).push((consumer@, pass@)));
    }
}

} // verus!
