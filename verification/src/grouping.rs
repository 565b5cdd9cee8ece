//! Group-keyed metrics: merging rows that land on one key, translating the
//! kind-keyed rows into the picks model's `group:name` keys, and the
//! mechanical sub-form classification of structure, trait and utility rows.

use vstd::prelude::*;
use crate::assoc::{has_key, key_pos, lemma_key_pos, lemma_key_pos_prefix};
use crate::config::ClassifierConfig;
use crate::fingerprint::{MetricView, PatternMetric};
use crate::picks::SubForm;
use crate::metrics::{DefLookups, PatternDef, PatternFact, defs_view, metric_rows_view, opt_is};
use crate::resolution::{clone_opt, opt_view, strings_contain, strings_view};
use crate::text::{
    chars_of, find_from_exec, lemma_find_from_sound, occurs_at, push_str, split_once, starts_with, str_eq, string_of_range,
};
use crate::usage::{is_variant_shaped, variant_shaped};

verus! {

/// `a + b`, saturating at the largest `usize`.
pub open spec fn sat(a: nat, b: nat) -> nat {
    if a + b > usize::MAX {
        usize::MAX as nat
    } else {
        a + b
    }
}

/// The row that results from merging `m` into an existing row `e`: counts
/// and evidence summed (saturating), public when either is, and the existing
/// defining crate unless it has none.
pub open spec fn merged(e: MetricView, m: MetricView) -> MetricView {
    MetricView {
        defining_crate: if e.defining_crate is None {
            m.defining_crate
        } else {
            e.defining_crate
        },
        intra: sat(e.intra, m.intra),
        inter: sat(e.inter, m.inter),
        is_pub: e.is_pub || m.is_pub,
        curated: sat(e.curated, m.curated),
        sub_form: e.sub_form,
        evidence: (sat(e.evidence.0, m.evidence.0), sat(e.evidence.1, m.evidence.1), sat(e.evidence.2, m.evidence.2)),
    }
}

/// A table after merging row `m` under `key`: summed into the first row of
/// that key, or appended when there is none.
pub open spec fn merge_into(t: Seq<(Seq<char>, MetricView)>, key: Seq<char>, m: MetricView) -> Seq<
    (Seq<char>, MetricView),
> {
    match key_pos(t, key) {
        Some(i) => t.update(i, (key, merged(t[i].1, m))),
        None => t.push((key, m)),
    }
}

fn row_pos(t: &Vec<(String, PatternMetric)>, key: &str) -> (r: Option<usize>)
    ensures
        match r {
            Some(j) => key_pos(metric_rows_view(t@), key@) == Some(j as int),
            None => key_pos(metric_rows_view(t@), key@) is None,
        },
{
    let ghost tv = metric_rows_view(t@);
    let mut i: usize = 0;
    while i < t.len()
        invariant
            i <= t@.len(),
            tv == metric_rows_view(t@),
            key_pos(tv.take(i as int), key@) is None,
        decreases t@.len() - i,
    {
        proof {
            assert(tv.take(i + 1).drop_last() =~= tv.take(i as int));
        }
        if str_eq(t[i].0.as_str(), key) {
            proof {
                lemma_key_pos_prefix(tv, i + 1, key@);
            }
            return Some(i);
        }
        i = i + 1;
    }
    assert(tv.take(i as int) =~= tv);
    None
}
/// A copy of a metrics row.
pub fn copy_metric(m: &PatternMetric) -> (r: PatternMetric)
    ensures
        r@ == m@,
{
    PatternMetric {
        defining_crate: clone_opt(&m.defining_crate),
        intra_count: m.intra_count,
        inter_count: m.inter_count,
        is_pub: m.is_pub,
        curated_example_count: m.curated_example_count,
        sub_form: m.sub_form,
        example_files: m.example_files,
        example_test_files: m.example_test_files,
        example_bench_files: m.example_bench_files,
    }
}

/// Inserts row `m` under `key`, or sum-merges it into the row already
/// there: counts and evidence add up (saturating), the row is public when
/// either is, and it keeps its defining crate unless it had none.
pub fn merge_metric(map: &mut Vec<(String, PatternMetric)>, key: String, m: PatternMetric)
    ensures
        metric_rows_view(final(map)@) == merge_into(metric_rows_view(old(map)@), key@, m@),
{
    let ghost before = metric_rows_view(map@);
    match row_pos(map, key.as_str()) {
        Some(j) => {
            proof {
                lemma_key_pos(before, key@);
            }
            let e = copy_metric(&map[j].1);
            let defining_crate = match &e.defining_crate {
                Some(_) => e.defining_crate,
                None => m.defining_crate,
            };
            let row = PatternMetric {
                defining_crate,
                intra_count: e.intra_count.saturating_add(m.intra_count),
                inter_count: e.inter_count.saturating_add(m.inter_count),
                is_pub: e.is_pub || m.is_pub,
                curated_example_count: e.curated_example_count.saturating_add(m.curated_example_count),
                sub_form: e.sub_form,
                example_files: e.example_files.saturating_add(m.example_files),
                example_test_files: e.example_test_files.saturating_add(m.example_test_files),
                example_bench_files: e.example_bench_files.saturating_add(m.example_bench_files),
            };
            let ghost kv = key@;
            map.set(j, (key, row));
            assert(metric_rows_view(map@) =~= before.update(j as int, (kv, merged(before[j as int].1, m@))));
        },
        None => {
            let ghost kv = key@;
            let ghost mv = m@;
            map.push((key, m));
            assert(metric_rows_view(map@) =~= before.push((kv, mv)));
        },
    }
}

/// The splits of a key around its first `sep`.
pub fn split_once_str(s: &str, sep: &str) -> (r: Option<(String, String)>)
    ensures
        match r {
            Some((a, b)) => split_once(s@, sep@) == Some((a@, b@)),
            None => split_once(s@, sep@) is None,
        },
{
    let cs = chars_of(s);
    let ss = chars_of(sep);
    let found = find_from_exec(&cs, &ss, 0);
    proof {
        lemma_find_from_sound(cs@, ss@, 0);
    }
    match found {
        None => None,
        Some(i) => {
            assert(occurs_at(cs@, ss@, i as int));
            let len = cs.len();
            let a = string_of_range(&cs, 0, i);
            let b = string_of_range(&cs, i + ss.len(), len);
            Some((a, b))
        },
    }
}

/// The `(group key, aggregate outer)` a kind-keyed row translates to: the
/// group key it merges into (none for rows that only feed an aggregate or
/// are dropped), and for type usages of a declared type the outer type
/// whose `structure:` aggregate it feeds.
///
/// - `trait_impl:T` to `traits:T`; `derive:T` and `attr_macro:M` to
///   `configuring:`; `reg_macro:M` and `free_fn:F` to `utilities:`;
/// - `pub_type:X` to `structure:X` for a type, `traits:X` for a trait;
/// - `method_ref:_::m` to `implementation_functions:_::m`;
///   `assoc_const:O::C` to `globals:O::C`;
/// - `type_usage:O::i` to `implementation_functions:O::i`, except enum
///   variant references and the `main` of a non-type outer, and into the
///   `structure:O` aggregate when `O` is a declared type.
pub open spec fn translate_key(key: Seq<char>, l: DefLookups, enums: Seq<Seq<char>>) -> (Option<Seq<char>>, Option<Seq<char>>) {
    match split_once(key, ":"@) {
        None => (None, None),
        Some((kind, inner)) => if kind == "trait_impl"@ {
            (Some("traits:"@ + inner), None)
        } else if kind == "derive"@ || kind == "attr_macro"@ {
            (Some("configuring:"@ + inner), None)
        } else if kind == "reg_macro"@ || kind == "free_fn"@ {
            (Some("utilities:"@ + inner), None)
        } else if kind == "pub_type"@ {
            if has_key(defs_view(l.types@), inner) {
                (Some("structure:"@ + inner), None)
            } else if has_key(defs_view(l.traits@), inner) {
                (Some("traits:"@ + inner), None)
            } else {
                (None, None)
            }
        } else if kind == "method_ref"@ {
            (Some("implementation_functions:"@ + inner), None)
        } else if kind == "assoc_const"@ {
            (Some("globals:"@ + inner), None)
        } else if kind == "type_usage"@ {
            let (outer, part) = match split_once(inner, "::"@) {
                Some((o, p)) => (o, p),
                None => (inner, Seq::empty()),
            };
            let collapses = enums.contains(outer) && variant_shaped(part);
            let entry_main = part == "main"@ && !has_key(defs_view(l.types@), outer);
            (
                if !collapses && !entry_main {
                    Some("implementation_functions:"@ + inner)
                } else {
                    None
                },
                if has_key(defs_view(l.types@), outer) {
                    Some(outer)
                } else {
                    None
                },
            )
        } else {
            (None, None)
        },
    }
}

/// The group-keyed table after merging every row's group key, in order.
pub open spec fn translate_rows(rows: Seq<(Seq<char>, MetricView)>, l: DefLookups, enums: Seq<Seq<char>>) -> Seq<
    (Seq<char>, MetricView),
>
    decreases rows.len(),
{
    if rows.len() == 0 {
        Seq::empty()
    } else {
        let prev = translate_rows(rows.drop_last(), l, enums);
        match translate_key(rows.last().0, l, enums).0 {
            Some(k) => merge_into(prev, k, rows.last().1),
            None => prev,
        }
    }
}

/// The outers fed into `structure:` aggregates, each once, in first-seen
/// order.
pub open spec fn aggregate_outers(rows: Seq<(Seq<char>, MetricView)>, l: DefLookups, enums: Seq<Seq<char>>) -> Seq<
    Seq<char>,
>
    decreases rows.len(),
{
    if rows.len() == 0 {
        Seq::empty()
    } else {
        let prev = aggregate_outers(rows.drop_last(), l, enums);
        match translate_key(rows.last().0, l, enums).1 {
            Some(o) => if prev.contains(o) {
                prev
            } else {
                prev.push(o)
            },
            None => prev,
        }
    }
}

/// The aggregate of the rows feeding outer `o`: counts and evidence summed
/// (saturating), public when any is, the first defining crate among them.
pub open spec fn aggregate_of(rows: Seq<(Seq<char>, MetricView)>, l: DefLookups, enums: Seq<Seq<char>>, o: Seq<char>) -> MetricView
    decreases rows.len(),
{
    if rows.len() == 0 {
        MetricView {
            defining_crate: None,
            intra: 0,
            inter: 0,
            is_pub: false,
            curated: 0,
            sub_form: None,
            evidence: (0, 0, 0),
        }
    } else {
        let prev = aggregate_of(rows.drop_last(), l, enums, o);
        if translate_key(rows.last().0, l, enums).1 == Some(o) {
            merged(prev, rows.last().1)
        } else {
            prev
        }
    }
}

/// The table after merging the `structure:` aggregates of `outers`, in
/// order.
pub open spec fn aggregate_fold(
    t: Seq<(Seq<char>, MetricView)>,
    outers: Seq<Seq<char>>,
    rows: Seq<(Seq<char>, MetricView)>,
    l: DefLookups,
    enums: Seq<Seq<char>>,
) -> Seq<(Seq<char>, MetricView)>
    decreases outers.len(),
{
    if outers.len() == 0 {
        t
    } else {
        let prev = aggregate_fold(t, outers.drop_last(), rows, l, enums);
        merge_into(prev, "structure:"@ + outers.last(), aggregate_of(rows, l, enums, outers.last()))
    }
}

/// The group-keyed table of kind-keyed rows: every row merged under its
/// group key, then each `structure:` aggregate merged in.
pub open spec fn translate_view(rows: Seq<(Seq<char>, MetricView)>, l: DefLookups, enums: Seq<Seq<char>>) -> Seq<
    (Seq<char>, MetricView),
> {
    aggregate_fold(translate_rows(rows, l, enums), aggregate_outers(rows, l, enums), rows, l, enums)
}

fn concat(a: &str, b: &str) -> (r: String)
    ensures
        r@ == a@ + b@,
{
    let mut r = a.to_string();
    push_str(&mut r, b);
    r
}

fn table_binds_name(t: &Vec<(String, PatternDef)>, name: &str) -> (r: bool)
    ensures
        r == has_key(defs_view(t@), name@),
{
    match crate::synthesis::find_def(t, name) {
        Some(_) => true,
        None => false,
    }
}

fn translate_key_exec(key: &str, lookups: &DefLookups, enums: &Vec<String>) -> (r: (Option<String>, Option<String>))
    ensures
        (opt_view(r.0), opt_view(r.1)) == translate_key(key@, *lookups, strings_view(enums@)),
{
    proof {
        reveal_strlit(":");
        reveal_strlit("::");
        reveal_strlit("main");
    }
    match split_once_str(key, ":") {
        None => (None, None),
        Some((kind, inner)) => {
            let k = kind.as_str();
            let i = inner.as_str();
            if str_eq(k, "trait_impl") {
                (Some(concat("traits:", i)), None)
            } else if str_eq(k, "derive") || str_eq(k, "attr_macro") {
                (Some(concat("configuring:", i)), None)
            } else if str_eq(k, "reg_macro") || str_eq(k, "free_fn") {
                (Some(concat("utilities:", i)), None)
            } else if str_eq(k, "pub_type") {
                if table_binds_name(&lookups.types, i) {
                    (Some(concat("structure:", i)), None)
                } else if table_binds_name(&lookups.traits, i) {
                    (Some(concat("traits:", i)), None)
                } else {
                    (None, None)
                }
            } else if str_eq(k, "method_ref") {
                (Some(concat("implementation_functions:", i)), None)
            } else if str_eq(k, "assoc_const") {
                (Some(concat("globals:", i)), None)
            } else if str_eq(k, "type_usage") {
                let (outer, part) = match split_once_str(i, "::") {
                    Some((o, p)) => (o, p),
                    None => (inner.clone(), String::new()),
                };
                let collapses = strings_contain(enums, outer.as_str()) && is_variant_shaped(part.as_str());
                let outer_is_type = table_binds_name(&lookups.types, outer.as_str());
                let entry_main = str_eq(part.as_str(), "main") && !outer_is_type;
                let key_out = if !collapses && !entry_main {
                    Some(concat("implementation_functions:", i))
                } else {
                    None
                };
                let agg = if outer_is_type {
                    Some(outer)
                } else {
                    None
                };
                (key_out, agg)
            } else {
                (None, None)
            }
        },
    }
}

fn aggregate_exec(
    rows: &Vec<(String, PatternMetric)>,
    keys: &Vec<(Option<String>, Option<String>)>,
    o: &str,
    Ghost(l): Ghost<DefLookups>,
    Ghost(enums): Ghost<Seq<Seq<char>>>,
) -> (r: PatternMetric)
    requires
        keys@.len() == rows@.len(),
        forall|i: int| 0 <= i < rows@.len() ==> (opt_view((#[trigger] keys@[i]).0), opt_view(keys@[i].1)) == translate_key(
            rows@[i].0@,
            l,
            enums,
        ),
    ensures
        r@ == aggregate_of(metric_rows_view(rows@), l, enums, o@),
{
    let ghost rv = metric_rows_view(rows@);
    let mut acc = PatternMetric {
        defining_crate: None,
        intra_count: 0,
        inter_count: 0,
        is_pub: false,
        curated_example_count: 0,
        sub_form: None,
        example_files: 0,
        example_test_files: 0,
        example_bench_files: 0,
    };
    let mut i: usize = 0;
    while i < rows.len()
        invariant
            i <= rows@.len(),
            keys@.len() == rows@.len(),
            rv == metric_rows_view(rows@),
            forall|i: int| 0 <= i < rows@.len() ==> (opt_view((#[trigger] keys@[i]).0), opt_view(keys@[i].1)) == translate_key(
                rows@[i].0@,
                l,
                enums,
            ),
            acc@ == aggregate_of(rv.take(i as int), l, enums, o@),
        decreases rows@.len() - i,
    {
        proof {
            assert(rv.take(i + 1).drop_last() =~= rv.take(i as int));
            assert(rv.take(i + 1).last() == rv[i as int]);
            assert((opt_view(keys@[i as int].0), opt_view(keys@[i as int].1)) == translate_key(rv[i as int].0, l, enums));
        }
        let hit = match &keys[i].1 {
            Some(x) => str_eq(x.as_str(), o),
            None => false,
        };
        if hit {
            let m = &rows[i].1;
            let e = copy_metric(&acc);
            let defining_crate = match &e.defining_crate {
                Some(_) => e.defining_crate,
                None => clone_opt(&m.defining_crate),
            };
            acc = PatternMetric {
                defining_crate,
                intra_count: e.intra_count.saturating_add(m.intra_count),
                inter_count: e.inter_count.saturating_add(m.inter_count),
                is_pub: e.is_pub || m.is_pub,
                curated_example_count: e.curated_example_count.saturating_add(m.curated_example_count),
                sub_form: e.sub_form,
                example_files: e.example_files.saturating_add(m.example_files),
                example_test_files: e.example_test_files.saturating_add(m.example_test_files),
                example_bench_files: e.example_bench_files.saturating_add(m.example_bench_files),
            };
        }
        i = i + 1;
    }
    assert(rv.take(i as int) =~= rv);
    acc
}

/// Translates kind-keyed metrics rows into the picks model's group keys:
/// each row merges (summing counts) into its group key, type usages of a
/// declared type also feed that type's `structure:` aggregate, and the
/// aggregates merge in last, in first-seen order.
pub fn translate_to_group_keys(
    rows: &Vec<(String, PatternMetric)>,
    lookups: &DefLookups,
    enums: &Vec<String>,
) -> (r: Vec<(String, PatternMetric)>)
    ensures
        metric_rows_view(r@) == translate_view(metric_rows_view(rows@), *lookups, strings_view(enums@)),
{
    proof {
        reveal_strlit("structure:");
    }
    let ghost rv = metric_rows_view(rows@);
    let ghost ev = strings_view(enums@);
    let mut keys: Vec<(Option<String>, Option<String>)> = Vec::new();
    let mut out: Vec<(String, PatternMetric)> = Vec::new();
    let mut outers: Vec<String> = Vec::new();
    let mut i: usize = 0;
    while i < rows.len()
        invariant
            i <= rows@.len(),
            rv == metric_rows_view(rows@),
            ev == strings_view(enums@),
            keys@.len() == i,
            forall|j: int| 0 <= j < i ==> (opt_view((#[trigger] keys@[j]).0), opt_view(keys@[j].1)) == translate_key(
                rows@[j].0@,
                *lookups,
                ev,
            ),
            metric_rows_view(out@) == translate_rows(rv.take(i as int), *lookups, ev),
            strings_view(outers@) == aggregate_outers(rv.take(i as int), *lookups, ev),
        decreases rows@.len() - i,
    {
        proof {
            assert(rv.take(i + 1).drop_last() =~= rv.take(i as int));
            assert(rv.take(i + 1).last() == rv[i as int]);
        }
        let tk = translate_key_exec(rows[i].0.as_str(), lookups, enums);
        if let Some(k) = &tk.0 {
            merge_metric(&mut out, k.clone(), copy_metric(&rows[i].1));
        }
        if let Some(o) = &tk.1 {
            if !strings_contain(&outers, o.as_str()) {
                let ghost before = strings_view(outers@);
                outers.push(o.clone());
                assert(strings_view(outers@) =~= before.push(o@));
            }
        }
        keys.push(tk);
        i = i + 1;
    }
    assert(rv.take(i as int) =~= rv);
    let ghost ov = strings_view(outers@);
    let ghost base = metric_rows_view(out@);
    let mut j: usize = 0;
    while j < outers.len()
        invariant
            j <= outers@.len(),
            rv == metric_rows_view(rows@),
            ev == strings_view(enums@),
            ov == strings_view(outers@),
            keys@.len() == rows@.len(),
            forall|j: int| 0 <= j < rows@.len() ==> (opt_view((#[trigger] keys@[j]).0), opt_view(keys@[j].1)) == translate_key(
                rows@[j].0@,
                *lookups,
                ev,
            ),
            metric_rows_view(out@) == aggregate_fold(base, ov.take(j as int), rv, *lookups, ev),
        decreases outers@.len() - j,
    {
        proof {
            assert(ov.take(j + 1).drop_last() =~= ov.take(j as int));
            assert(ov.take(j + 1).last() == outers@[j as int]@);
        }
        let agg = aggregate_exec(rows, &keys, outers[j].as_str(), Ghost(*lookups), Ghost(ev));
        merge_metric(&mut out, concat("structure:", outers[j].as_str()), agg);
        j = j + 1;
    }
    assert(ov.take(j as int) =~= ov);
    out
}

/// A structure's footprint class: `Foundational` when its intra, inter and
/// (whole) example counts reach the threshold, else `Incidental`.
pub open spec fn structure_form(m: MetricView, examples: nat, min_total: nat) -> SubForm {
    if m.intra + m.inter + examples >= min_total {
        SubForm::Foundational
    } else {
        SubForm::Incidental
    }
}

/// The number of non-gated impls of trait `name`.
pub open spec fn trait_impl_count(impls: Seq<PatternFact>, name: Seq<char>) -> nat
    decreases impls.len(),
{
    if impls.len() == 0 {
        0
    } else {
        trait_impl_count(impls.drop_last(), name) + if opt_view(impls.last().trait_name) == Some(name)
            && !impls.last().cfg_gated {
            1nat
        } else {
            0nat
        }
    }
}

/// A trait's class: `Lifecycle` with at least `threshold` non-gated impls,
/// else `Marker`.
pub open spec fn trait_form(impls: Seq<PatternFact>, name: Seq<char>, threshold: nat) -> SubForm {
    if trait_impl_count(impls, name) >= threshold {
        SubForm::Lifecycle
    } else {
        SubForm::Marker
    }
}

/// A utility's class: `Macro` when some macro fact has its name, else
/// `FreeFn`.
pub open spec fn utility_form(macros: Seq<PatternFact>, name: Seq<char>) -> SubForm {
    if exists|i: int| 0 <= i < macros.len() && opt_view((#[trigger] macros[i]).name) == Some(name) {
        SubForm::Macro
    } else {
        SubForm::FreeFn
    }
}

/// Classifies a structure row by its footprint: intra + inter + the whole
/// part of its example count against the foundational threshold.
pub fn classify_structure(metric: &PatternMetric, examples: usize, min_total: usize) -> (r: SubForm)
    ensures
        r == structure_form(metric@, examples as nat, min_total as nat),
{
    let total = metric.intra_count as u128 + metric.inter_count as u128 + examples as u128;
    if total >= min_total as u128 {
        SubForm::Foundational
    } else {
        SubForm::Incidental
    }
}

proof fn lemma_trait_impl_count_bounded(impls: Seq<PatternFact>, name: Seq<char>)
    ensures
        trait_impl_count(impls, name) <= impls.len(),
    decreases impls.len(),
{
    if impls.len() > 0 {
        lemma_trait_impl_count_bounded(impls.drop_last(), name);
    }
}

/// Classifies a trait row by how many non-gated impls of it the workspace
/// has.
pub fn classify_traits(name: &str, impls: &Vec<PatternFact>, threshold: usize) -> (r: SubForm)
    ensures
        r == trait_form(impls@, name@, threshold as nat),
{
    let mut n: usize = 0;
    let mut i: usize = 0;
    while i < impls.len()
        invariant
            i <= impls@.len(),
            n == trait_impl_count(impls@.take(i as int), name@),
        decreases impls@.len() - i,
    {
        proof {
            assert(impls@.take(i + 1).drop_last() =~= impls@.take(i as int));
            assert(impls@.take(i + 1).last() == impls@[i as int]);
            lemma_trait_impl_count_bounded(impls@.take(i + 1), name@);
        }
        if opt_is(&impls[i].trait_name, name) && !impls[i].cfg_gated {
            n = n + 1;
        }
        i = i + 1;
    }
    assert(impls@.take(i as int) =~= impls@);
    if n >= threshold {
        SubForm::Lifecycle
    } else {
        SubForm::Marker
    }
}

/// Classifies a utility row: a macro when some macro fact carries its name.
pub fn classify_utilities(name: &str, macros: &Vec<PatternFact>) -> (r: SubForm)
    ensures
        r == utility_form(macros@, name@),
{
    let mut i: usize = 0;
    while i < macros.len()
        invariant
            i <= macros@.len(),
            forall|k: int| 0 <= k < i ==> opt_view((#[trigger] macros@[k]).name) != Some(name@),
        decreases macros@.len() - i,
    {
        if opt_is(&macros[i].name, name) {
            return SubForm::Macro;
        }
        i = i + 1;
    }
    SubForm::FreeFn
}

/// The sub-form a group-keyed row gets: structures by footprint, traits by
/// impl count, utilities by macro presence, other groups none; a key
/// without `:` keeps its sub-form.
pub open spec fn sub_form_for(
    key: Seq<char>,
    m: MetricView,
    examples: nat,
    impls: Seq<PatternFact>,
    macros: Seq<PatternFact>,
    min_total: nat,
    threshold: nat,
) -> Option<SubForm> {
    match split_once(key, ":"@) {
        None => m.sub_form,
        Some((g, name)) => if g == "structure"@ {
            Some(structure_form(m, examples, min_total))
        } else if g == "traits"@ {
            Some(trait_form(impls, name, threshold))
        } else if g == "utilities"@ {
            Some(utility_form(macros, name))
        } else {
            None
        },
    }
}

/// Sets each group-keyed row's sub-form from the general signals:
/// `structure:` rows by their footprint (intra + inter + the whole part of
/// the row's example count, given in `examples` row by row),
/// `traits:` rows by their non-gated impl count, `utilities:` rows by
/// whether a macro carries the name; other groups get none.
pub fn classify_sub_forms(
    metrics: &mut Vec<(String, PatternMetric)>,
    examples: &Vec<usize>,
    impls: &Vec<PatternFact>,
    macros: &Vec<PatternFact>,
    classifier: &ClassifierConfig,
)
    requires
        examples@.len() == old(metrics)@.len(),
    ensures
        final(metrics)@.len() == old(metrics)@.len(),
        forall|i: int|
            0 <= i < old(metrics)@.len() ==> (#[trigger] metric_rows_view(final(metrics)@)[i]) == (
            metric_rows_view(old(metrics)@)[i].0,
            MetricView {
                sub_form: sub_form_for(
                    metric_rows_view(old(metrics)@)[i].0,
                    metric_rows_view(old(metrics)@)[i].1,
                    examples@[i] as nat,
                    impls@,
                    macros@,
                    classifier.foundational_min_total as nat,
                    classifier.lifecycle_impl_threshold as nat,
                ),
                ..metric_rows_view(old(metrics)@)[i].1
            },
        ),
{
    proof {
        reveal_strlit(":");
    }
    let ghost start = metric_rows_view(metrics@);
    let mut i: usize = 0;
    while i < metrics.len()
        invariant
            i <= metrics@.len(),
            metrics@.len() == start.len(),
            examples@.len() == start.len(),
            forall|k: int| i <= k < start.len() ==> #[trigger] metric_rows_view(metrics@)[k] == start[k],
            forall|k: int|
                0 <= k < i ==> (#[trigger] metric_rows_view(metrics@)[k]) == (
                start[k].0,
                MetricView {
                    sub_form: sub_form_for(
                        start[k].0,
                        start[k].1,
                        examples@[k] as nat,
                        impls@,
                        macros@,
                        classifier.foundational_min_total as nat,
                        classifier.lifecycle_impl_threshold as nat,
                    ),
                    ..start[k].1
                },
            ),
        decreases metrics@.len() - i,
    {
        assert(metric_rows_view(metrics@)[i as int] == start[i as int]);
        let key = metrics[i].0.clone();
        let m = copy_metric(&metrics[i].1);
        let form: Option<SubForm> = match split_once_str(key.as_str(), ":") {
            None => m.sub_form,
            Some((g, name)) => {
                if str_eq(g.as_str(), "structure") {
                    Some(classify_structure(&m, examples[i], classifier.foundational_min_total))
                } else if str_eq(g.as_str(), "traits") {
                    Some(classify_traits(name.as_str(), impls, classifier.lifecycle_impl_threshold))
                } else if str_eq(g.as_str(), "utilities") {
                    Some(classify_utilities(name.as_str(), macros))
                } else {
                    None
                }
            },
        };
        let row = PatternMetric { sub_form: form, ..m };
        let ghost before = metrics@;
        metrics.set(i, (key, row));
        proof {
            assert forall|k: int| 0 <= k < start.len() && k != i implies #[trigger] metric_rows_view(metrics@)[k]
                == metric_rows_view(before)[k] by {
                assert(metrics@[k] == before[k]);
            }
        }
        i = i + 1;
    }
}

/// A key carries one of the group prefixes the translation writes.
pub open spec fn group_prefixed(k: Seq<char>) -> bool {
    ||| starts_with(k, "traits:"@)
    ||| starts_with(k, "configuring:"@)
    ||| starts_with(k, "utilities:"@)
    ||| starts_with(k, "structure:"@)
    ||| starts_with(k, "implementation_functions:"@)
    ||| starts_with(k, "globals:"@)
}

/// Every key of the table carries a group prefix.
pub open spec fn keys_group_prefixed(t: Seq<(Seq<char>, MetricView)>) -> bool {
    forall|i: int| 0 <= i < t.len() ==> group_prefixed(#[trigger] t[i].0)
}

proof fn lemma_prefix_concat(a: Seq<char>, b: Seq<char>)
    ensures
        starts_with(a + b, a),
{
    assert((a + b).subrange(0, a.len() as int) =~= a);
}

proof fn lemma_translate_key_prefixed(key: Seq<char>, l: DefLookups, enums: Seq<Seq<char>>)
    ensures
        translate_key(key, l, enums).0 matches Some(k) ==> group_prefixed(k),
{
    match split_once(key, ":"@) {
        Some((kind, inner)) => {
            lemma_prefix_concat("traits:"@, inner);
            lemma_prefix_concat("configuring:"@, inner);
            lemma_prefix_concat("utilities:"@, inner);
            lemma_prefix_concat("structure:"@, inner);
            lemma_prefix_concat("implementation_functions:"@, inner);
            lemma_prefix_concat("globals:"@, inner);
        },
        None => {},
    }
}

proof fn lemma_merge_into_prefixed(t: Seq<(Seq<char>, MetricView)>, key: Seq<char>, m: MetricView)
    requires
        keys_group_prefixed(t),
        group_prefixed(key),
    ensures
        keys_group_prefixed(merge_into(t, key, m)),
{
    lemma_key_pos(t, key);
    let r = merge_into(t, key, m);
    assert forall|i: int| 0 <= i < r.len() implies group_prefixed(#[trigger] r[i].0) by {
        match key_pos(t, key) {
            Some(j) => {
                if i != j {
                    assert(r[i] == t[i]);
                }
            },
            None => {
                if i < t.len() {
                    assert(r[i] == t[i]);
                }
            },
        }
    }
}

proof fn lemma_translate_rows_prefixed(rows: Seq<(Seq<char>, MetricView)>, l: DefLookups, enums: Seq<Seq<char>>)
    ensures
        keys_group_prefixed(translate_rows(rows, l, enums)),
    decreases rows.len(),
{
    if rows.len() > 0 {
        lemma_translate_rows_prefixed(rows.drop_last(), l, enums);
        lemma_translate_key_prefixed(rows.last().0, l, enums);
        match translate_key(rows.last().0, l, enums).0 {
            Some(k) => lemma_merge_into_prefixed(translate_rows(rows.drop_last(), l, enums), k, rows.last().1),
            None => {},
        }
    }
}

proof fn lemma_aggregate_fold_prefixed(
    t: Seq<(Seq<char>, MetricView)>,
    outers: Seq<Seq<char>>,
    rows: Seq<(Seq<char>, MetricView)>,
    l: DefLookups,
    enums: Seq<Seq<char>>,
)
    requires
        keys_group_prefixed(t),
    ensures
        keys_group_prefixed(aggregate_fold(t, outers, rows, l, enums)),
    decreases outers.len(),
{
    if outers.len() > 0 {
        lemma_aggregate_fold_prefixed(t, outers.drop_last(), rows, l, enums);
        lemma_prefix_concat("structure:"@, outers.last());
        lemma_merge_into_prefixed(
            aggregate_fold(t, outers.drop_last(), rows, l, enums),
            "structure:"@ + outers.last(),
            aggregate_of(rows, l, enums, outers.last()),
        );
    }
}

/// Every key of the group-keyed table carries one of the group prefixes
/// `traits:`, `configuring:`, `utilities:`, `structure:`,
/// `implementation_functions:` or `globals:`.
pub proof fn lemma_translated_keys_grouped(rows: Seq<(Seq<char>, MetricView)>, l: DefLookups, enums: Seq<Seq<char>>)
    ensures
        keys_group_prefixed(translate_view(rows, l, enums)),
{
    lemma_translate_rows_prefixed(rows, l, enums);
    lemma_aggregate_fold_prefixed(
        translate_rows(rows, l, enums),
        aggregate_outers(rows, l, enums),
        rows,
        l,
        enums,
    );
}

} // verus!
