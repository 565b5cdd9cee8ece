//! Clustering crate names by shared name prefix (`bevy_*`, `tokio-*`): a
//! crate joins the cluster of its longest `_`/`-` prefix shared by at least
//! `min_size` distinct crates; clusters left with fewer than `min_size`
//! members are dissolved into the unclustered list.

use vstd::prelude::*;
use vstd::multiset::Multiset;
use indexmap::IndexMap;
use crate::assoc::{key_pos, lemma_key_pos};
use crate::crate_map::{cluster_entries, cluster_map_insert, cluster_map_new};
use crate::resolution::{strings_contain, strings_view};
use crate::sorting::{sort_strings, sorted_strings, sorted_view};
use crate::text::{chars_of, seq_lt, string_of_range, str_eq};

verus! {

/// The prefixes of `name` that end just before an occurrence of `sep` at a
/// position below `k`, the one before the latest occurrence first.
pub open spec fn sep_prefixes(name: Seq<char>, sep: char, k: int) -> Seq<Seq<char>>
    decreases k,
{
    if k <= 0 || k > name.len() {
        Seq::empty()
    } else {
        let rest = sep_prefixes(name, sep, k - 1);
        if name[k - 1] == sep {
            seq![name.take(k - 1)] + rest
        } else {
            rest
        }
    }
}

/// `acc` extended by the non-empty prefixes of `ps` it does not hold yet.
pub open spec fn add_unique(acc: Seq<Seq<char>>, ps: Seq<Seq<char>>) -> Seq<Seq<char>>
    decreases ps.len(),
{
    if ps.len() == 0 {
        acc
    } else {
        let prev = add_unique(acc, ps.drop_last());
        if ps.last().len() > 0 && !prev.contains(ps.last()) {
            prev.push(ps.last())
        } else {
            prev
        }
    }
}

/// The cluster prefixes a name offers, longest first: those before each `_`,
/// then those before each `-`.
pub open spec fn prefix_candidates(name: Seq<char>) -> Seq<Seq<char>> {
    add_unique(
        add_unique(Seq::empty(), sep_prefixes(name, '_', name.len() as int)),
        sep_prefixes(name, '-', name.len() as int),
    )
}

/// The distinct names of `names` that offer prefix `p`, in first-seen order.
pub open spec fn names_with_prefix(names: Seq<Seq<char>>, p: Seq<char>) -> Seq<Seq<char>>
    decreases names.len(),
{
    if names.len() == 0 {
        Seq::empty()
    } else {
        let prev = names_with_prefix(names.drop_last(), p);
        if prefix_candidates(names.last()).contains(p) && !prev.contains(names.last()) {
            prev.push(names.last())
        } else {
            prev
        }
    }
}

/// The first prefix of `cands` shared by at least `min_size` distinct names.
pub open spec fn first_cluster(cands: Seq<Seq<char>>, names: Seq<Seq<char>>, min_size: nat) -> Option<
    Seq<char>,
>
    decreases cands.len(),
{
    if cands.len() == 0 {
        None
    } else if names_with_prefix(names, cands[0]).len() >= min_size {
        Some(cands[0])
    } else {
        first_cluster(cands.drop_first(), names, min_size)
    }
}

/// The position of the cluster keyed `p`.
pub open spec fn cluster_pos(cl: Seq<(Seq<char>, Seq<Seq<char>>)>, p: Seq<char>) -> Option<int>
    decreases cl.len(),
{
    if cl.len() == 0 {
        None
    } else {
        match cluster_pos(cl.drop_last(), p) {
            Some(i) => Some(i),
            None => if cl.last().0 == p {
                Some(cl.len() - 1)
            } else {
                None
            },
        }
    }
}

/// `cl` with `name` appended to the cluster keyed `p` (a new cluster last
/// when there is none).
pub open spec fn cluster_add(cl: Seq<(Seq<char>, Seq<Seq<char>>)>, p: Seq<char>, name: Seq<char>) -> Seq<
    (Seq<char>, Seq<Seq<char>>),
> {
    match cluster_pos(cl, p) {
        Some(i) => cl.update(i, (p, cl[i].1.push(name))),
        None => cl.push((p, seq![name])),
    }
}

/// The clusters and the unclustered names after placing `names` in order,
/// judging prefixes against all of `all`.
pub open spec fn clusters_of(names: Seq<Seq<char>>, all: Seq<Seq<char>>, min_size: nat) -> (
    Seq<(Seq<char>, Seq<Seq<char>>)>,
    Seq<Seq<char>>,
)
    decreases names.len(),
{
    if names.len() == 0 {
        (Seq::empty(), Seq::empty())
    } else {
        let prev = clusters_of(names.drop_last(), all, min_size);
        match first_cluster(prefix_candidates(names.last()), all, min_size) {
            Some(p) => (cluster_add(prev.0, p, names.last()), prev.1),
            None => (prev.0, prev.1.push(names.last())),
        }
    }
}

/// The views of a list of clusters.
pub open spec fn clusters_view(v: Seq<(String, Vec<String>)>) -> Seq<(Seq<char>, Seq<Seq<char>>)> {
    v.map_values(|c: (String, Vec<String>)| (c.0@, strings_view(c.1@)))
}

fn push_unique_prefix(out: &mut Vec<String>, name: &[char], k: usize)
    requires
        k <= name@.len(),
    ensures
        strings_view(final(out)@) == (if k > 0 && !strings_view(old(out)@).contains(name@.take(k as int)) {
            strings_view(old(out)@).push(name@.take(k as int))
        } else {
            strings_view(old(out)@)
        }),
{
    if k > 0 {
        let p = string_of_range(name, 0, k);
        assert(name@.subrange(0, k as int) =~= name@.take(k as int));
        if !strings_contain(out, p.as_str()) {
            let ghost before = strings_view(out@);
            out.push(p);
            assert(strings_view(out@) =~= before.push(name@.take(k as int)));
        }
    }
}

fn add_sep_prefixes(out: &mut Vec<String>, name: &[char], sep: char)
    ensures
        strings_view(final(out)@) == add_unique(strings_view(old(out)@), sep_prefixes(name@, sep, name@.len() as int)),
{
    let ghost start = strings_view(out@);
    let ghost full = sep_prefixes(name@, sep, name@.len() as int);
    let ghost mut done: Seq<Seq<char>> = Seq::empty();
    let mut k: usize = name.len();
    assert(done + sep_prefixes(name@, sep, k as int) =~= full);
    while k > 0
        invariant
            k <= name@.len(),
            full == sep_prefixes(name@, sep, name@.len() as int),
            done + sep_prefixes(name@, sep, k as int) == full,
            strings_view(out@) == add_unique(start, done),
        decreases k,
    {
        if name[k - 1] == sep {
            let ghost x = name@.take(k - 1);
            push_unique_prefix(out, name, k - 1);
            proof {
                assert((done + seq![x]).drop_last() =~= done);
                assert((done + seq![x]) + sep_prefixes(name@, sep, k - 1) =~= done + sep_prefixes(name@, sep, k as int));
                done = done + seq![x];
            }
        }
        k = k - 1;
    }
    assert(done =~= full);
}

/// The cluster prefixes `name` offers, longest first.
pub fn name_prefixes(name: &str) -> (r: Vec<String>)
    ensures
        strings_view(r@) == prefix_candidates(name@),
{
    let cs = chars_of(name);
    let mut out: Vec<String> = Vec::new();
    assert(strings_view(out@) =~= Seq::<Seq<char>>::empty());
    add_sep_prefixes(&mut out, &cs, '_');
    add_sep_prefixes(&mut out, &cs, '-');
    out
}

/// How many distinct names of `names` offer prefix `p`.
fn count_names_with_prefix(names: &Vec<String>, p: &str) -> (r: usize)
    ensures
        r == names_with_prefix(strings_view(names@), p@).len(),
{
    let ghost ns = strings_view(names@);
    let mut seen: Vec<String> = Vec::new();
    let mut i: usize = 0;
    assert(strings_view(seen@) =~= names_with_prefix(ns.take(0), p@));
    while i < names.len()
        invariant
            i <= names@.len(),
            ns == strings_view(names@),
            strings_view(seen@) == names_with_prefix(ns.take(i as int), p@),
            seen@.len() <= i,
        decreases names@.len() - i,
    {
        assert(ns.take(i + 1).drop_last() =~= ns.take(i as int));
        assert(ns.take(i + 1).last() == names@[i as int]@);
        let cands = name_prefixes(names[i].as_str());
        if strings_contain(&cands, p) && !strings_contain(&seen, names[i].as_str()) {
            let ghost before = strings_view(seen@);
            seen.push(names[i].clone());
            assert(strings_view(seen@) =~= before.push(names@[i as int]@));
        }
        i = i + 1;
    }
    assert(ns.take(i as int) =~= ns);
    seen.len()
}

fn cluster_index(clusters: &Vec<(String, Vec<String>)>, p: &str) -> (r: Option<usize>)
    ensures
        r matches Some(i) ==> cluster_pos(clusters_view(clusters@), p@) == Some(i as int) && i < clusters@.len(),
        r is None ==> cluster_pos(clusters_view(clusters@), p@) is None,
{
    let ghost cv = clusters_view(clusters@);
    let mut i: usize = 0;
    while i < clusters.len()
        invariant
            i <= clusters@.len(),
            cv == clusters_view(clusters@),
            cluster_pos(cv.take(i as int), p@) is None,
        decreases clusters@.len() - i,
    {
        assert(cv.take(i + 1).drop_last() =~= cv.take(i as int));
        if str_eq(clusters[i].0.as_str(), p) {
            proof {
                lemma_cluster_pos_prefix(cv, i + 1, p@);
            }
            return Some(i);
        }
        i = i + 1;
    }
    assert(cv.take(i as int) =~= cv);
    None
}

proof fn lemma_cluster_pos_prefix(cl: Seq<(Seq<char>, Seq<Seq<char>>)>, n: int, p: Seq<char>)
    requires
        0 <= n <= cl.len(),
        cluster_pos(cl.take(n), p) is Some,
    ensures
        cluster_pos(cl, p) == cluster_pos(cl.take(n), p),
    decreases cl.len(),
{
    if n == cl.len() {
        assert(cl.take(n) =~= cl);
    } else {
        assert(cl.drop_last().take(n) =~= cl.take(n));
        lemma_cluster_pos_prefix(cl.drop_last(), n, p);
    }
}

proof fn lemma_cluster_pos_bound(cl: Seq<(Seq<char>, Seq<Seq<char>>)>, p: Seq<char>)
    ensures
        cluster_pos(cl, p) matches Some(i) ==> 0 <= i < cl.len() && cl[i].0 == p,
    decreases cl.len(),
{
    if cl.len() > 0 {
        lemma_cluster_pos_bound(cl.drop_last(), p);
    }
}

/// The first pass over the sorted names: each name joins the cluster of its
/// first prefix offered by at least `min_size` names, or the unclustered list.
fn place_by_prefix(crates: &Vec<String>, min_size: usize) -> (r: (Vec<(String, Vec<String>)>, Vec<String>))
    ensures
        (clusters_view(r.0@), strings_view(r.1@)) == clusters_of(
            strings_view(crates@),
            strings_view(crates@),
            min_size as nat,
        ),
{
    let ghost all = strings_view(crates@);
    let mut clusters: Vec<(String, Vec<String>)> = Vec::new();
    let mut others: Vec<String> = Vec::new();
    let mut i: usize = 0;
    assert(all.take(0) =~= Seq::<Seq<char>>::empty());
    assert(clusters_view(clusters@) =~= Seq::<(Seq<char>, Seq<Seq<char>>)>::empty());
    assert(strings_view(others@) =~= Seq::<Seq<char>>::empty());
    while i < crates.len()
        invariant
            i <= crates@.len(),
            all == strings_view(crates@),
            (clusters_view(clusters@), strings_view(others@)) == clusters_of(all.take(i as int), all, min_size as nat),
        decreases crates@.len() - i,
    {
        let name = &crates[i];
        assert(all.take(i + 1).drop_last() =~= all.take(i as int));
        assert(all.take(i + 1).last() == name@);
        let cands = name_prefixes(name.as_str());
        let ghost cv = strings_view(cands@);
        let mut j: usize = 0;
        let mut assigned: Option<usize> = None;
        assert(cv.skip(0) =~= cv);
        assert(cv.skip(cv.len() as int) =~= Seq::<Seq<char>>::empty());
        while j < cands.len()
            invariant_except_break
                assigned is None,
            invariant
                j <= cands@.len(),
                cv == strings_view(cands@),
                all == strings_view(crates@),
                first_cluster(cv, all, min_size as nat) == first_cluster(cv.skip(j as int), all, min_size as nat),
                cv.skip(cv.len() as int) == Seq::<Seq<char>>::empty(),
            ensures
                assigned matches Some(k) ==> k < cands@.len() && first_cluster(cv, all, min_size as nat)
                    == Some(cv[k as int]),
                assigned is None ==> first_cluster(cv, all, min_size as nat) is None,
            decreases cands@.len() - j,
        {
            assert(cv.skip(j as int).drop_first() =~= cv.skip(j + 1));
            assert(cv.skip(j as int)[0] == cands@[j as int]@);
            if count_names_with_prefix(&crates, cands[j].as_str()) >= min_size {
                assigned = Some(j);
                break;
            }
            j = j + 1;
        }
        let ghost prev = clusters_of(all.take(i as int), all, min_size as nat);
        match assigned {
            Some(j) => {
                let p = &cands[j];
                match cluster_index(&clusters, p.as_str()) {
                    Some(k) => {
                        proof {
                            lemma_cluster_pos_bound(clusters_view(clusters@), p@);
                        }
                        let ghost before = clusters_view(clusters@);
                        let ghost raw = clusters@;
                        let (key, mut members) = clusters.remove(k);
                        assert(key == raw[k as int].0 && members == raw[k as int].1);
                        let ghost m0 = members@;
                        members.push(name.clone());
                        assert(strings_view(members@) =~= strings_view(m0).push(name@));
                        let ghost entry = (key, members);
                        clusters.insert(k, (key, members));
                        assert(clusters@ =~= raw.update(k as int, entry));
                        assert(clusters_view(clusters@) =~= before.update(k as int, (p@, before[k as int].1.push(name@))));
                    },
                    None => {
                        let ghost before = clusters_view(clusters@);
                        let mut members: Vec<String> = Vec::new();
                        members.push(name.clone());
                        assert(strings_view(members@) =~= seq![name@]);
                        clusters.push((p.clone(), members));
                        assert(clusters_view(clusters@) =~= before.push((p@, seq![name@])));
                    },
                }
            },
            None => {
                let ghost before = strings_view(others@);
                others.push(name.clone());
                assert(strings_view(others@) =~= before.push(name@));
            },
        }
        i = i + 1;
    }
    assert(all.take(i as int) =~= all);
    (clusters, others)
}

/// The clusters with at least `min` members, in order.
pub open spec fn kept_clusters(cl: Seq<(Seq<char>, Seq<Seq<char>>)>, min: nat) -> Seq<(Seq<char>, Seq<Seq<char>>)>
    decreases cl.len(),
{
    if cl.len() == 0 {
        Seq::empty()
    } else {
        let prev = kept_clusters(cl.drop_last(), min);
        if cl.last().1.len() >= min {
            prev.push(cl.last())
        } else {
            prev
        }
    }
}

/// The members of the clusters with fewer than `min` members, in order.
pub open spec fn dropped_members(cl: Seq<(Seq<char>, Seq<Seq<char>>)>, min: nat) -> Seq<Seq<char>>
    decreases cl.len(),
{
    if cl.len() == 0 {
        Seq::empty()
    } else {
        let prev = dropped_members(cl.drop_last(), min);
        if cl.last().1.len() >= min {
            prev
        } else {
            prev + cl.last().1
        }
    }
}

/// The prefix clustering of `names`: the names sorted and placed by
/// `clusters_of`; the clusters that reach `min_size` members are kept, and
/// every other name (unplaced, or in a cluster that stayed too small) goes
/// to the sorted leftovers.
pub open spec fn clusters_by_prefix(names: Seq<Seq<char>>, min_size: nat) -> (
    Seq<(Seq<char>, Seq<Seq<char>>)>,
    Seq<Seq<char>>,
) {
    let s = sorted_view(names);
    let pass = clusters_of(s, s, min_size);
    (kept_clusters(pass.0, min_size), sorted_view(pass.1 + dropped_members(pass.0, min_size)))
}

/// The kept clusters (in first-placement order) and the sorted leftovers.
pub(crate) fn cluster_rows(crate_names: &Vec<String>, min_size: usize) -> (r: (
    Vec<(String, Vec<String>)>,
    Vec<String>,
))
    ensures
        (clusters_view(r.0@), strings_view(r.1@)) == clusters_by_prefix(strings_view(crate_names@), min_size as nat),
        forall|i: int| 0 <= i < r.0@.len() ==> #[trigger] r.0@[i].1@.len() >= min_size,
        sorted_strings(strings_view(r.1@)),
        clustered_count(clusters_view(r.0@)) + r.1@.len() == crate_names@.len(),
        members_multiset(clusters_view(r.0@)).add(strings_view(r.1@).to_multiset()) == strings_view(
            crate_names@,
        ).to_multiset(),
        forall|i: int| 0 <= i < r.0@.len() ==> sorted_strings(strings_view(#[trigger] r.0@[i].1@)),
{
    let crates = sort_strings(crate_names);
    proof {
        strings_view(crates@).to_multiset_ensures();
        strings_view(crate_names@).to_multiset_ensures();
    }
    let (clusters, others) = place_by_prefix(&crates, min_size);
    let ghost pass = clusters_of(strings_view(crates@), strings_view(crates@), min_size as nat);
    let ghost cv = clusters_view(clusters@);
    let mut kept: Vec<(String, Vec<String>)> = Vec::new();
    let mut rest: Vec<String> = others;
    let mut i: usize = 0;
    assert(cv.take(0) =~= Seq::<(Seq<char>, Seq<Seq<char>>)>::empty());
    assert(clusters_view(kept@) =~= Seq::<(Seq<char>, Seq<Seq<char>>)>::empty());
    assert(strings_view(rest@) =~= pass.1 + Seq::<Seq<char>>::empty());
    while i < clusters.len()
        invariant
            i <= clusters@.len(),
            cv == clusters_view(clusters@),
            cv == pass.0,
            clusters_view(kept@) == kept_clusters(cv.take(i as int), min_size as nat),
            strings_view(rest@) == pass.1 + dropped_members(cv.take(i as int), min_size as nat),
            forall|k: int| 0 <= k < kept@.len() ==> #[trigger] kept@[k].1@.len() >= min_size,
        decreases clusters@.len() - i,
    {
        assert(cv.take(i + 1).drop_last() =~= cv.take(i as int));
        assert(cv.take(i + 1).last() == cv[i as int]);
        let (key, members) = &clusters[i];
        if members.len() >= min_size {
            let ghost before = clusters_view(kept@);
            let entry = (key.clone(), members.clone());
            assert(strings_view(entry.1@) =~= strings_view(members@));
            kept.push(entry);
            assert(clusters_view(kept@) =~= before.push(cv[i as int]));
        } else {
            let ghost before = strings_view(rest@);
            let mut j: usize = 0;
            while j < members.len()
                invariant
                    j <= members@.len(),
                    strings_view(rest@) == before + strings_view(members@).take(j as int),
                decreases members@.len() - j,
            {
                let ghost b2 = strings_view(rest@);
                rest.push(members[j].clone());
                assert(strings_view(members@).take(j + 1) =~= strings_view(members@).take(j as int).push(members@[j as int]@));
                assert(strings_view(rest@) =~= b2.push(members@[j as int]@));
                j = j + 1;
            }
            assert(strings_view(members@).take(j as int) =~= strings_view(members@));
            assert(strings_view(rest@) =~= pass.1 + dropped_members(cv.take(i + 1), min_size as nat));
        }
        i = i + 1;
    }
    assert(cv.take(i as int) =~= cv);
    let others = sort_strings(&rest);
    proof {
        lemma_every_name_placed_once(strings_view(crates@), strings_view(crates@), min_size as nat);
        lemma_kept_and_dropped(cv, min_size as nat);
        strings_view(rest@).to_multiset_ensures();
        strings_view(others@).to_multiset_ensures();
        assert(strings_view(crates@).len() == crate_names@.len());
        let sv = strings_view(crates@);
        lemma_placement_keeps_names(sv, sv, min_size as nat);
        lemma_kept_and_dropped_names(cv, min_size as nat);
        lemma_placement_sorted(sv, sv, min_size as nat);
        lemma_kept_sorted(cv, min_size as nat);
        vstd::seq_lib::lemma_multiset_commutative(pass.1, dropped_members(cv, min_size as nat));
        broadcast use vstd::multiset::group_multiset_axioms;
        assert(members_multiset(clusters_view(kept@)).add(strings_view(others@).to_multiset())
            =~= members_multiset(cv).add(pass.1.to_multiset()));
        assert forall|i: int| 0 <= i < kept@.len() implies sorted_strings(strings_view(#[trigger] kept@[i].1@)) by {
            assert(clusters_view(kept@)[i].1 == strings_view(kept@[i].1@));
        }
    }
    (kept, others)
}

/// The kept clusters and the dropped members together hold every placed name.
proof fn lemma_kept_and_dropped(cl: Seq<(Seq<char>, Seq<Seq<char>>)>, min: nat)
    ensures
        clustered_count(kept_clusters(cl, min)) + dropped_members(cl, min).len() == clustered_count(cl),
    decreases cl.len(),
{
    if cl.len() > 0 {
        lemma_kept_and_dropped(cl.drop_last(), min);
        let prev = kept_clusters(cl.drop_last(), min);
        if cl.last().1.len() >= min {
            assert(prev.push(cl.last()).drop_last() =~= prev);
        }
    }
}

/// How many names the clusters hold in all.
pub open spec fn clustered_count(cl: Seq<(Seq<char>, Seq<Seq<char>>)>) -> nat
    decreases cl.len(),
{
    if cl.len() == 0 {
        0
    } else {
        clustered_count(cl.drop_last()) + cl.last().1.len()
    }
}

proof fn lemma_clustered_count_grow(cl: Seq<(Seq<char>, Seq<Seq<char>>)>, i: int, p: Seq<char>, n: Seq<char>)
    requires
        0 <= i < cl.len(),
    ensures
        clustered_count(cl.update(i, (p, cl[i].1.push(n)))) == clustered_count(cl) + 1,
    decreases cl.len(),
{
    let u = cl.update(i, (p, cl[i].1.push(n)));
    if i == cl.len() - 1 {
        assert(u.drop_last() =~= cl.drop_last());
    } else {
        assert(u.drop_last() =~= cl.drop_last().update(i, (p, cl[i].1.push(n))));
        lemma_clustered_count_grow(cl.drop_last(), i, p, n);
    }
}

/// Every name is placed exactly once: the clusters and the unclustered list
/// together hold as many names as were given.
pub proof fn lemma_every_name_placed_once(names: Seq<Seq<char>>, all: Seq<Seq<char>>, min_size: nat)
    ensures
        clustered_count(clusters_of(names, all, min_size).0) + clusters_of(names, all, min_size).1.len()
            == names.len(),
    decreases names.len(),
{
    if names.len() > 0 {
        lemma_every_name_placed_once(names.drop_last(), all, min_size);
        let prev = clusters_of(names.drop_last(), all, min_size);
        match first_cluster(prefix_candidates(names.last()), all, min_size) {
            Some(p) => {
                lemma_cluster_pos_bound(prev.0, p);
                match cluster_pos(prev.0, p) {
                    Some(i) => {
                        lemma_clustered_count_grow(prev.0, i, p, names.last());
                    },
                    None => {
                        assert(prev.0.push((p, seq![names.last()])).drop_last() =~= prev.0);
                    },
                }
            },
            None => {},
        }
    }
}

/// Every member of every cluster offers the cluster's key as a prefix.
pub open spec fn members_offer_keys(cl: Seq<(Seq<char>, Seq<Seq<char>>)>) -> bool {
    forall|i: int, j: int|
        0 <= i < cl.len() && 0 <= j < cl[i].1.len() ==> prefix_candidates(#[trigger] cl[i].1[j]).contains(cl[i].0)
}

proof fn lemma_first_cluster_is_candidate(cands: Seq<Seq<char>>, names: Seq<Seq<char>>, min: nat)
    ensures
        first_cluster(cands, names, min) matches Some(p) ==> cands.contains(p),
    decreases cands.len(),
{
    if cands.len() > 0 && names_with_prefix(names, cands[0]).len() < min {
        lemma_first_cluster_is_candidate(cands.drop_first(), names, min);
        if first_cluster(cands, names, min) is Some {
            let p = first_cluster(cands, names, min)->Some_0;
            let k = choose|k: int| 0 <= k < cands.drop_first().len() && cands.drop_first()[k] == p;
            assert(cands[k + 1] == p);
        }
    } else if cands.len() > 0 {
        assert(cands.contains(cands[0]));
    }
}

proof fn lemma_placed_members_offer_keys(names: Seq<Seq<char>>, all: Seq<Seq<char>>, min: nat)
    ensures
        members_offer_keys(clusters_of(names, all, min).0),
    decreases names.len(),
{
    if names.len() > 0 {
        lemma_placed_members_offer_keys(names.drop_last(), all, min);
        let prev = clusters_of(names.drop_last(), all, min).0;
        let n = names.last();
        lemma_first_cluster_is_candidate(prefix_candidates(n), all, min);
        match first_cluster(prefix_candidates(n), all, min) {
            Some(p) => {
                lemma_cluster_pos_bound(prev, p);
                let next = cluster_add(prev, p, n);
                assert forall|i: int, j: int| 0 <= i < next.len() && 0 <= j < next[i].1.len() implies prefix_candidates(
                    #[trigger] next[i].1[j],
                ).contains(next[i].0) by {
                    match cluster_pos(prev, p) {
                        Some(k) => {
                            if i == k && j == prev[k].1.len() {
                            } else if i == k {
                                assert(next[i].1[j] == prev[i].1[j]);
                            } else {
                                assert(next[i] == prev[i]);
                            }
                        },
                        None => {
                            if i < prev.len() {
                                assert(next[i] == prev[i]);
                            }
                        },
                    }
                }
            },
            None => {},
        }
    }
}

proof fn lemma_kept_clusters_props(cl: Seq<(Seq<char>, Seq<Seq<char>>)>, min: nat)
    requires
        members_offer_keys(cl),
    ensures
        members_offer_keys(kept_clusters(cl, min)),
        forall|i: int| 0 <= i < kept_clusters(cl, min).len() ==> #[trigger] kept_clusters(cl, min)[i].1.len() >= min,
    decreases cl.len(),
{
    if cl.len() > 0 {
        let d = cl.drop_last();
        assert forall|i: int, j: int| 0 <= i < d.len() && 0 <= j < d[i].1.len() implies prefix_candidates(
            #[trigger] d[i].1[j],
        ).contains(d[i].0) by {
            assert(d[i] == cl[i]);
        }
        lemma_kept_clusters_props(d, min);
        let prev = kept_clusters(d, min);
        if cl.last().1.len() >= min {
            let next = prev.push(cl.last());
            assert forall|i: int, j: int| 0 <= i < next.len() && 0 <= j < next[i].1.len() implies prefix_candidates(
                #[trigger] next[i].1[j],
            ).contains(next[i].0) by {
                if i == prev.len() {
                    assert(next[i] == cl[cl.len() - 1]);
                } else {
                    assert(next[i] == prev[i]);
                }
            }
        }
    }
}

/// The names the clusters hold, counted with repeats.
pub open spec fn members_multiset(cl: Seq<(Seq<char>, Seq<Seq<char>>)>) -> Multiset<Seq<char>>
    decreases cl.len(),
{
    if cl.len() == 0 {
        Multiset::empty()
    } else {
        members_multiset(cl.drop_last()).add(cl.last().1.to_multiset())
    }
}

/// Every cluster lists its members in ascending order.
pub open spec fn members_sorted(cl: Seq<(Seq<char>, Seq<Seq<char>>)>) -> bool {
    forall|i: int| 0 <= i < cl.len() ==> sorted_strings(#[trigger] cl[i].1)
}

proof fn lemma_members_grow(cl: Seq<(Seq<char>, Seq<Seq<char>>)>, i: int, p: Seq<char>, n: Seq<char>)
    requires
        0 <= i < cl.len(),
    ensures
        members_multiset(cl.update(i, (p, cl[i].1.push(n)))) == members_multiset(cl).insert(n),
    decreases cl.len(),
{
    broadcast use vstd::multiset::group_multiset_axioms;
    broadcast use vstd::seq_lib::group_to_multiset_ensures;

    let u = cl.update(i, (p, cl[i].1.push(n)));
    if i == cl.len() - 1 {
        assert(u.drop_last() =~= cl.drop_last());
        assert(cl[i].1.push(n).to_multiset() =~= cl[i].1.to_multiset().insert(n));
        assert(members_multiset(u) =~= members_multiset(cl).insert(n));
    } else {
        assert(u.drop_last() =~= cl.drop_last().update(i, (p, cl[i].1.push(n))));
        lemma_members_grow(cl.drop_last(), i, p, n);
        assert(u.last() == cl.last());
        assert(members_multiset(u) =~= members_multiset(cl).insert(n));
    }
}

proof fn lemma_placement_keeps_names(names: Seq<Seq<char>>, all: Seq<Seq<char>>, min: nat)
    ensures
        members_multiset(clusters_of(names, all, min).0).add(clusters_of(names, all, min).1.to_multiset())
            == names.to_multiset(),
    decreases names.len(),
{
    broadcast use vstd::multiset::group_multiset_axioms;
    broadcast use vstd::seq_lib::group_to_multiset_ensures;

    if names.len() == 0 {
        assert(names.to_multiset() =~= Multiset::empty());
        assert(members_multiset(clusters_of(names, all, min).0).add(clusters_of(names, all, min).1.to_multiset())
            =~= Multiset::empty());
    } else {
        lemma_placement_keeps_names(names.drop_last(), all, min);
        let prev = clusters_of(names.drop_last(), all, min);
        let next = clusters_of(names, all, min);
        let n = names.last();
        assert(names.drop_last().push(n) =~= names);
        match first_cluster(prefix_candidates(n), all, min) {
            Some(p) => {
                lemma_cluster_pos_bound(prev.0, p);
                match cluster_pos(prev.0, p) {
                    Some(i) => {
                        lemma_members_grow(prev.0, i, p, n);
                    },
                    None => {
                        let c = prev.0.push((p, seq![n]));
                        assert(c.drop_last() =~= prev.0);
                        assert(Seq::<Seq<char>>::empty().push(n) =~= seq![n]);
                        assert(Seq::<Seq<char>>::empty().to_multiset() =~= Multiset::empty());
                        assert(members_multiset(c) =~= members_multiset(prev.0).insert(n));
                    },
                }
                assert(members_multiset(next.0).add(next.1.to_multiset()) =~= names.to_multiset());
            },
            None => {
                assert(members_multiset(next.0).add(next.1.to_multiset()) =~= names.to_multiset());
            },
        }
    }
}

proof fn lemma_kept_and_dropped_names(cl: Seq<(Seq<char>, Seq<Seq<char>>)>, min: nat)
    ensures
        members_multiset(kept_clusters(cl, min)).add(dropped_members(cl, min).to_multiset()) == members_multiset(cl),
    decreases cl.len(),
{
    broadcast use vstd::multiset::group_multiset_axioms;
    broadcast use vstd::seq_lib::group_to_multiset_ensures;

    if cl.len() == 0 {
        assert(dropped_members(cl, min).to_multiset() =~= Multiset::empty());
        assert(members_multiset(kept_clusters(cl, min)).add(dropped_members(cl, min).to_multiset()) =~= Multiset::empty());
    } else {
        lemma_kept_and_dropped_names(cl.drop_last(), min);
        let pk = kept_clusters(cl.drop_last(), min);
        let pd = dropped_members(cl.drop_last(), min);
        if cl.last().1.len() >= min {
            assert(pk.push(cl.last()).drop_last() =~= pk);
        } else {
            vstd::seq_lib::lemma_multiset_commutative(pd, cl.last().1);
        }
        assert(members_multiset(kept_clusters(cl, min)).add(dropped_members(cl, min).to_multiset())
            =~= members_multiset(cl));
    }
}

proof fn lemma_placement_sorted(names: Seq<Seq<char>>, all: Seq<Seq<char>>, min: nat)
    requires
        sorted_strings(names),
    ensures
        members_sorted(clusters_of(names, all, min).0),
        forall|i: int, j: int|
            0 <= i < clusters_of(names, all, min).0.len() && 0 <= j < clusters_of(names, all, min).0[i].1.len()
                ==> names.contains(#[trigger] clusters_of(names, all, min).0[i].1[j]),
    decreases names.len(),
{
    if names.len() > 0 {
        let d = names.drop_last();
        assert forall|a: int, b: int| 0 <= a < b < d.len() implies !seq_lt(#[trigger] d[b], #[trigger] d[a]) by {
            assert(d[a] == names[a] && d[b] == names[b]);
        }
        lemma_placement_sorted(d, all, min);
        let prev = clusters_of(d, all, min).0;
        let next = clusters_of(names, all, min).0;
        let n = names.last();
        let last = names.len() - 1;
        assert(names[last] == n);
        assert forall|i: int, j: int| 0 <= i < prev.len() && 0 <= j < prev[i].1.len() implies !seq_lt(
            n,
            #[trigger] prev[i].1[j],
        ) && names.contains(prev[i].1[j]) by {
            let m = prev[i].1[j];
            assert(d.contains(m));
            let x = choose|x: int| 0 <= x < d.len() && d[x] == m;
            assert(names[x] == m);
        }
        match first_cluster(prefix_candidates(n), all, min) {
            Some(p) => {
                lemma_cluster_pos_bound(prev, p);
                match cluster_pos(prev, p) {
                    Some(k) => {
                        assert forall|i: int| 0 <= i < next.len() implies sorted_strings(#[trigger] next[i].1) by {
                            if i == k {
                                let ms = next[i].1;
                                assert(ms == prev[k].1.push(n));
                                assert forall|a: int, b: int| 0 <= a < b < ms.len() implies !seq_lt(
                                    #[trigger] ms[b],
                                    #[trigger] ms[a],
                                ) by {
                                    if b == ms.len() - 1 {
                                        assert(ms[a] == prev[k].1[a]);
                                    } else {
                                        assert(ms[a] == prev[k].1[a] && ms[b] == prev[k].1[b]);
                                    }
                                }
                            } else {
                                assert(next[i] == prev[i]);
                            }
                        }
                        assert forall|i: int, j: int| 0 <= i < next.len() && 0 <= j < next[i].1.len() implies names.contains(
                            #[trigger] next[i].1[j],
                        ) by {
                            if i == k && j == prev[k].1.len() {
                                assert(names[last] == next[i].1[j]);
                            } else if i == k {
                                assert(next[i].1[j] == prev[i].1[j]);
                            } else {
                                assert(next[i] == prev[i]);
                            }
                        }
                    },
                    None => {
                        assert forall|i: int| 0 <= i < next.len() implies sorted_strings(#[trigger] next[i].1) by {
                            if i < prev.len() {
                                assert(next[i] == prev[i]);
                            }
                        }
                        assert forall|i: int, j: int| 0 <= i < next.len() && 0 <= j < next[i].1.len() implies names.contains(
                            #[trigger] next[i].1[j],
                        ) by {
                            if i < prev.len() {
                                assert(next[i] == prev[i]);
                            } else {
                                assert(names[last] == next[i].1[j]);
                            }
                        }
                    },
                }
            },
            None => {},
        }
    }
}

proof fn lemma_kept_sorted(cl: Seq<(Seq<char>, Seq<Seq<char>>)>, min: nat)
    requires
        members_sorted(cl),
    ensures
        members_sorted(kept_clusters(cl, min)),
    decreases cl.len(),
{
    if cl.len() > 0 {
        let d = cl.drop_last();
        assert forall|i: int| 0 <= i < d.len() implies sorted_strings(#[trigger] d[i].1) by {
            assert(d[i] == cl[i]);
        }
        lemma_kept_sorted(d, min);
        let prev = kept_clusters(d, min);
        if cl.last().1.len() >= min {
            let next = prev.push(cl.last());
            assert forall|i: int| 0 <= i < next.len() implies sorted_strings(#[trigger] next[i].1) by {
                if i == prev.len() {
                    assert(next[i] == cl[cl.len() - 1]);
                } else {
                    assert(next[i] == prev[i]);
                }
            }
        }
    }
}

/// The clusters of a prefix clustering are real: each has at least
/// `min_size` members, and each member offers the cluster's key as one of
/// its `_`/`-` name prefixes.
pub proof fn lemma_clusters_share_prefix(names: Seq<Seq<char>>, min_size: nat)
    ensures
        forall|i: int|
            0 <= i < clusters_by_prefix(names, min_size).0.len() ==> #[trigger] clusters_by_prefix(
                names,
                min_size,
            ).0[i].1.len() >= min_size,
        members_offer_keys(clusters_by_prefix(names, min_size).0),
{
    let s = sorted_view(names);
    lemma_placed_members_offer_keys(s, s, min_size);
    lemma_kept_clusters_props(clusters_of(s, s, min_size).0, min_size);
}

/// No two clusters share a key.
pub open spec fn cluster_keys_distinct(cl: Seq<(Seq<char>, Seq<Seq<char>>)>) -> bool {
    forall|i: int, j: int| 0 <= i < j < cl.len() ==> (#[trigger] cl[i]).0 != (#[trigger] cl[j]).0
}

proof fn lemma_cluster_pos_none(cl: Seq<(Seq<char>, Seq<Seq<char>>)>, p: Seq<char>)
    ensures
        cluster_pos(cl, p) is None ==> forall|x: int| 0 <= x < cl.len() ==> (#[trigger] cl[x]).0 != p,
    decreases cl.len(),
{
    if cl.len() > 0 {
        lemma_cluster_pos_none(cl.drop_last(), p);
        if cluster_pos(cl, p) is None {
            assert forall|x: int| 0 <= x < cl.len() implies (#[trigger] cl[x]).0 != p by {
                if x < cl.len() - 1 {
                    assert(cl.drop_last()[x] == cl[x]);
                }
            }
        }
    }
}

proof fn lemma_clusters_of_distinct(names: Seq<Seq<char>>, all: Seq<Seq<char>>, min: nat)
    ensures
        cluster_keys_distinct(clusters_of(names, all, min).0),
    decreases names.len(),
{
    if names.len() > 0 {
        lemma_clusters_of_distinct(names.drop_last(), all, min);
        let prev = clusters_of(names.drop_last(), all, min).0;
        let next = clusters_of(names, all, min).0;
        match first_cluster(prefix_candidates(names.last()), all, min) {
            Some(p) => {
                lemma_cluster_pos_bound(prev, p);
                lemma_cluster_pos_none(prev, p);
                assert forall|a: int, b: int| 0 <= a < b < next.len() implies (#[trigger] next[a]).0 != (
                #[trigger] next[b]).0 by {
                    if b < prev.len() {
                        assert(next[a].0 == prev[a].0 && next[b].0 == prev[b].0);
                    } else {
                        assert(next[a] == prev[a]);
                    }
                }
            },
            None => {},
        }
    }
}

proof fn lemma_kept_distinct(cl: Seq<(Seq<char>, Seq<Seq<char>>)>, min: nat)
    requires
        cluster_keys_distinct(cl),
    ensures
        cluster_keys_distinct(kept_clusters(cl, min)),
        forall|i: int| 0 <= i < kept_clusters(cl, min).len() ==> exists|x: int|
            0 <= x < cl.len() && #[trigger] kept_clusters(cl, min)[i] == cl[x],
    decreases cl.len(),
{
    if cl.len() > 0 {
        let d = cl.drop_last();
        assert forall|a: int, b: int| 0 <= a < b < d.len() implies (#[trigger] d[a]).0 != (#[trigger] d[b]).0 by {
            assert(d[a] == cl[a] && d[b] == cl[b]);
        }
        lemma_kept_distinct(d, min);
        let prev = kept_clusters(d, min);
        let next = kept_clusters(cl, min);
        let last = cl.len() - 1;
        assert forall|i: int| 0 <= i < prev.len() implies exists|x: int|
            0 <= x < last && #[trigger] prev[i] == cl[x] by {
            let x = choose|x: int| 0 <= x < d.len() && prev[i] == d[x];
            assert(d[x] == cl[x]);
        }
        if cl.last().1.len() >= min {
            assert forall|a: int, b: int| 0 <= a < b < next.len() implies (#[trigger] next[a]).0 != (
            #[trigger] next[b]).0 by {
                if b == prev.len() {
                    let x = choose|x: int| 0 <= x < last && prev[a] == cl[x];
                    assert(next[a] == cl[x]);
                    assert(next[b] == cl[last]);
                } else {
                    assert(next[a] == prev[a] && next[b] == prev[b]);
                }
            }
            assert forall|i: int| 0 <= i < next.len() implies exists|x: int|
                0 <= x < cl.len() && #[trigger] next[i] == cl[x] by {
                if i == prev.len() {
                    assert(next[i] == cl[last]);
                } else {
                    assert(next[i] == prev[i]);
                    let x = choose|x: int| 0 <= x < last && prev[i] == cl[x];
                }
            }
        } else {
            assert forall|i: int| 0 <= i < next.len() implies exists|x: int|
                0 <= x < cl.len() && #[trigger] next[i] == cl[x] by {
                let x = choose|x: int| 0 <= x < last && prev[i] == cl[x];
            }
        }
    }
}

/// Groups crate names by shared prefix into clusters of at least `min_size`
/// members and the sorted leftovers: the names are sorted; each prefix a
/// name offers (split at `_`, then at `-`, longest first) counts the
/// distinct names offering it; each name joins the cluster of its first
/// prefix with at least `min_size` names; clusters that end up smaller than
/// `min_size` are dissolved into the leftovers.
pub fn cluster_crates_by_prefix(crate_names: &Vec<String>, min_size: usize) -> (r: (
    IndexMap<String, Vec<String>>,
    Vec<String>,
))
    ensures
        (cluster_entries(r.0), strings_view(r.1@)) == clusters_by_prefix(strings_view(crate_names@), min_size as nat),
        forall|i: int| 0 <= i < cluster_entries(r.0).len() ==> #[trigger] cluster_entries(r.0)[i].1.len() >= min_size,
        sorted_strings(strings_view(r.1@)),
        clustered_count(cluster_entries(r.0)) + r.1@.len() == crate_names@.len(),
        members_multiset(cluster_entries(r.0)).add(strings_view(r.1@).to_multiset()) == strings_view(
            crate_names@,
        ).to_multiset(),
        forall|i: int| 0 <= i < cluster_entries(r.0).len() ==> sorted_strings(#[trigger] cluster_entries(r.0)[i].1),
        cluster_keys_distinct(cluster_entries(r.0)),
{
    let (mut rest, others) = cluster_rows(crate_names, min_size);
    let ghost orig = rest@;
    let ghost cv = clusters_view(orig);
    proof {
        let s = sorted_view(strings_view(crate_names@));
        lemma_clusters_of_distinct(s, s, min_size as nat);
        lemma_kept_distinct(clusters_of(s, s, min_size as nat).0, min_size as nat);
        assert forall|i: int| 0 <= i < cv.len() implies sorted_strings(#[trigger] cv[i].1) by {
            assert(cv[i].1 == strings_view(orig[i].1@));
        }
    }
    let mut m = cluster_map_new();
    let total = rest.len();
    let ghost n = rest@.len();
    let mut i: usize = 0;
    while rest.len() > 0
        invariant
            i + rest@.len() == n,
            n == orig.len(),
            n == total,
            cv == clusters_view(orig),
            cluster_keys_distinct(cv),
            rest@ == orig.skip(i as int),
            cluster_entries(m) == cv.take(i as int),
        decreases rest@.len(),
    {
        let (k, v) = rest.remove(0);
        assert(orig.skip(i as int)[0] == orig[i as int]);
        proof {
            lemma_key_pos(cv.take(i as int), k@);
            if key_pos(cv.take(i as int), k@) is Some {
                let x = key_pos(cv.take(i as int), k@)->Some_0;
                assert(cv[x].0 == cv[i as int].0);
                assert(false);
            }
        }
        cluster_map_insert(&mut m, k, v);
        assert(cv.take(i + 1) =~= cv.take(i as int).push(cv[i as int]));
        assert(rest@ =~= orig.skip(i + 1));
        i = i + 1;
    }
    assert(cv.take(i as int) =~= cv);
    (m, others)
}

} // verus!
