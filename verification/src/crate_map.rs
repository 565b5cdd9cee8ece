//! Reading the discovered crates, an insertion-ordered `indexmap::IndexMap`
//! from package name to `CrateInfo`.

use vstd::prelude::*;
use indexmap::IndexMap;
use crate::assoc::{first_value, key_pos};
use crate::fingerprint::{CrateInfo, PatternMetric};
use crate::resolution::strings_view;

verus! {

#[verifier::external_type_specification]
#[verifier::external_body]
#[verifier::reject_recursive_types(K)]
#[verifier::reject_recursive_types(V)]
#[verifier::reject_recursive_types(S)]
pub struct ExIndexMap<K, V, S>(IndexMap<K, V, S>);

/// The entries of a crate map in their insertion order: each package name
/// with its metadata.
pub uninterp spec fn crate_entries(m: IndexMap<String, CrateInfo>) -> Seq<(Seq<char>, CrateInfo)>;

/// `IndexMap::len`: the number of entries of the map.
#[verifier::external_body]
pub(crate) fn crate_count(m: &IndexMap<String, CrateInfo>) -> (n: usize)
    ensures
        n == crate_entries(*m).len(),
{
    m.len()
}

/// `IndexMap::get_index`: the entry at position `i` of the insertion order,
/// `None` past the end.
#[verifier::external_body]
pub(crate) fn crate_at(m: &IndexMap<String, CrateInfo>, i: usize) -> (r: Option<(&String, &CrateInfo)>)
    ensures
        i < crate_entries(*m).len() ==> r is Some,
        r matches Some(p) ==> p.0@ == crate_entries(*m)[i as int].0 && *p.1 == crate_entries(
            *m,
        )[i as int].1,
        i >= crate_entries(*m).len() ==> r is None,
{
    m.get_index(i)
}

/// The entries of a pattern-metrics map in their insertion order: each
/// pattern key with its metrics row.
pub uninterp spec fn metric_entries(m: IndexMap<String, PatternMetric>) -> Seq<(Seq<char>, PatternMetric)>;

/// `IndexMap::len`: the number of entries of the map.
#[verifier::external_body]
pub(crate) fn metric_count(m: &IndexMap<String, PatternMetric>) -> (n: usize)
    ensures
        n == metric_entries(*m).len(),
{
    m.len()
}

/// `IndexMap::new`: an empty pattern-metrics map.
#[verifier::external_body]
pub(crate) fn metric_map_new() -> (r: IndexMap<String, PatternMetric>)
    ensures
        metric_entries(r) == Seq::<(Seq<char>, PatternMetric)>::empty(),
{
    IndexMap::new()
}

/// `IndexMap::insert`: a key already in the map keeps its place and takes
/// the new value; a new key is appended last with its value.
#[verifier::external_body]
pub(crate) fn metric_map_insert(m: &mut IndexMap<String, PatternMetric>, k: String, v: PatternMetric)
    ensures
        metric_entries(*final(m)) == match key_pos(metric_entries(*old(m)), k@) {
            Some(i) => metric_entries(*old(m)).update(i, (k@, v)),
            None => metric_entries(*old(m)).push((k@, v)),
        },
{
    m.insert(k, v);
}

/// `IndexMap::get_index`: the entry at position `i` of the insertion order,
/// `None` past the end.
#[verifier::external_body]
pub(crate) fn metric_at(m: &IndexMap<String, PatternMetric>, i: usize) -> (r: Option<(&String, &PatternMetric)>)
    ensures
        i < metric_entries(*m).len() ==> r is Some,
        r matches Some(p) ==> p.0@ == metric_entries(*m)[i as int].0 && *p.1 == metric_entries(
            *m,
        )[i as int].1,
        i >= metric_entries(*m).len() ==> r is None,
{
    m.get_index(i)
}

/// `IndexMap::get`: the metadata stored under the package name `k`, `None`
/// when no entry has that name.
#[verifier::external_body]
pub(crate) fn crate_get<'a>(m: &'a IndexMap<String, CrateInfo>, k: &str) -> (r: Option<&'a CrateInfo>)
    ensures
        r matches Some(v) ==> first_value(crate_entries(*m), k@) == Some(*v),
        r is None ==> first_value(crate_entries(*m), k@) is None,
{
    m.get(k)
}

/// The entries of a crate-directory map in their insertion order: each
/// package name with its workspace-relative directory.
pub uninterp spec fn dir_entries(m: IndexMap<String, String>) -> Seq<(Seq<char>, Seq<char>)>;

/// `IndexMap::len`: the number of entries of the map.
#[verifier::external_body]
pub(crate) fn dir_count(m: &IndexMap<String, String>) -> (n: usize)
    ensures
        n == dir_entries(*m).len(),
{
    m.len()
}

/// `IndexMap::get_index`: the entry at position `i` of the insertion order,
/// `None` past the end.
#[verifier::external_body]
pub(crate) fn dir_at(m: &IndexMap<String, String>, i: usize) -> (r: Option<(&String, &String)>)
    ensures
        i < dir_entries(*m).len() ==> r is Some,
        r matches Some(p) ==> p.0@ == dir_entries(*m)[i as int].0 && p.1@ == dir_entries(*m)[i as int].1,
        i >= dir_entries(*m).len() ==> r is None,
{
    m.get_index(i)
}

/// The entries of a name -> count map in their insertion order.
pub uninterp spec fn count_entries(m: IndexMap<String, usize>) -> Seq<(Seq<char>, usize)>;

/// `IndexMap::len`: the number of entries of the map.
#[verifier::external_body]
pub(crate) fn count_map_len(m: &IndexMap<String, usize>) -> (n: usize)
    ensures
        n == count_entries(*m).len(),
{
    m.len()
}

/// `IndexMap::get_index`: the entry at position `i` of the insertion order,
/// `None` past the end.
#[verifier::external_body]
pub(crate) fn count_map_at(m: &IndexMap<String, usize>, i: usize) -> (r: Option<(&String, &usize)>)
    ensures
        i < count_entries(*m).len() ==> r is Some,
        r matches Some(p) ==> p.0@ == count_entries(*m)[i as int].0 && *p.1 == count_entries(*m)[i as int].1,
        i >= count_entries(*m).len() ==> r is None,
{
    m.get_index(i)
}

/// The entries of a cluster map in their insertion order: each name prefix
/// with its member crate names.
pub uninterp spec fn cluster_entries(m: IndexMap<String, Vec<String>>) -> Seq<(Seq<char>, Seq<Seq<char>>)>;

/// `IndexMap::new`: an empty cluster map.
#[verifier::external_body]
pub(crate) fn cluster_map_new() -> (r: IndexMap<String, Vec<String>>)
    ensures
        cluster_entries(r) == Seq::<(Seq<char>, Seq<Seq<char>>)>::empty(),
{
    IndexMap::new()
}

/// `IndexMap::insert`: a key already in the map keeps its place and takes
/// the new members; a new key is appended last with its members.
#[verifier::external_body]
pub(crate) fn cluster_map_insert(m: &mut IndexMap<String, Vec<String>>, k: String, v: Vec<String>)
    ensures
        cluster_entries(*final(m)) == match key_pos(cluster_entries(*old(m)), k@) {
            Some(i) => cluster_entries(*old(m)).update(i, (k@, strings_view(v@))),
            None => cluster_entries(*old(m)).push((k@, strings_view(v@))),
        },
{
    m.insert(k, v);
}

} // verus!
