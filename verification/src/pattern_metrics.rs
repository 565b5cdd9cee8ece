//! The per-pattern metrics of a workspace: kind-keyed rows from the usage
//! facts, the rows synthesized from syntax-tree sites, and their translation
//! into group keys.

use vstd::prelude::*;
use indexmap::IndexMap;
use crate::assoc::{first_value, lemma_first_value_prefix, lemma_first_value_step};
use crate::config::{ClassifierConfig, FiltersConfig};
use crate::crate_map::{dir_entries, metric_entries, metric_map_insert, metric_map_new};
use crate::fingerprint::{MetricView, PatternMetric};
use crate::grouping::{
    aggregate_fold, aggregate_of, aggregate_outers, classify_sub_forms, keys_group_prefixed,
    lemma_translated_keys_grouped, merge_into, merged, sub_form_for, translate_key, translate_rows,
    translate_to_group_keys, translate_view,
};
use crate::assoc::{key_pos, lemma_key_pos};
use crate::metrics::{
    DefLookups, KindSources, PatternFact, SiteContext, kind_pattern_metrics, kind_row, kind_rows, metric_rows_view,
    seen_patterns, triples_view,
};
use crate::resolution::{opt_view, strings_view};
use crate::text::{split_once, str_eq};
use crate::picks::SubForm;
use crate::grouping::trait_impl_count;
use crate::synthesis::{
    AstUsages, FnDecl, assoc_fold, call_targets, called_names, class_keys, family_fold, free_fn_fold,
    free_fn_rows_view, ident_list, idents_in_order, pub_type_fold, ref_rows_view, routes_view, synthesize_free_fns,
    synthesize_pub_types, synthesize_ref_rows, usage_row, variant_fold,
};

verus! {

/// The kind-keyed rows followed, when syntax-tree sites are present, by the
/// public-type rows, the reference rows and the free-function rows.
pub open spec fn kind_and_synthesized(
    src: KindSources,
    ast: Option<AstUsages>,
    fns: Seq<FnDecl>,
    l: DefLookups,
    ctx: SiteContext,
    counts: Seq<(Seq<char>, (nat, nat, nat))>,
    enums: Seq<Seq<char>>,
    entries: Seq<(Seq<char>, Seq<char>)>,
    filters: FiltersConfig,
    min_outers: nat,
) -> Seq<(Seq<char>, MetricView)> {
    let skips = filters.pattern_skip_substrings@;
    let base = kind_rows(seen_patterns(src), src, l, ctx, counts, skips);
    match ast {
        None => base,
        Some(u) => {
            let a = pub_type_fold(base, idents_in_order(ident_list(u)), ident_list(u), l, entries, ctx, skips);
            let b = ref_rows_view(a, u.method_refs@, l, enums, filters, entries, ctx, min_outers);
            free_fn_rows_view(b, u.fn_calls@, fns, entries, ctx, skips)
        },
    }
}

/// The value of a table of example counts: each group key with the whole part
/// of its row's (weighted) example count.
pub open spec fn example_table_view(t: Seq<(String, usize)>) -> Seq<(Seq<char>, nat)> {
    t.map_values(|e: (String, usize)| (e.0@, e.1 as nat))
}

/// The whole example count the table gives key `k` (its first entry), 0 when
/// the table does not list it.
pub open spec fn example_whole(t: Seq<(Seq<char>, nat)>, k: Seq<char>) -> nat {
    match first_value(t, k) {
        Some(v) => v,
        None => 0,
    }
}

/// The rows with their sub-forms set from the general signals: structures
/// by footprint (with the table's example count), traits by non-gated impl
/// count, utilities by macro presence, other groups none.
pub open spec fn classified_rows(
    rows: Seq<(Seq<char>, MetricView)>,
    table: Seq<(Seq<char>, nat)>,
    impls: Seq<PatternFact>,
    macros: Seq<PatternFact>,
    c: ClassifierConfig,
) -> Seq<(Seq<char>, MetricView)> {
    rows.map_values(
        |r: (Seq<char>, MetricView)|
            (
                r.0,
                MetricView {
                    sub_form: sub_form_for(
                        r.0,
                        r.1,
                        example_whole(table, r.0),
                        impls,
                        macros,
                        c.foundational_min_total as nat,
                        c.lifecycle_impl_threshold as nat,
                    ),
                    ..r.1
                },
            ),
    )
}

fn example_whole_exec(t: &Vec<(String, usize)>, k: &str) -> (r: usize)
    ensures
        r == example_whole(example_table_view(t@), k@),
{
    let ghost v = example_table_view(t@);
    let mut i: usize = 0;
    while i < t.len()
        invariant
            i <= t@.len(),
            v == example_table_view(t@),
            first_value(v.take(i as int), k@) is None,
        decreases t@.len() - i,
    {
        proof {
            lemma_first_value_step(v, i as int, k@);
        }
        if str_eq(t[i].0.as_str(), k) {
            proof {
                lemma_first_value_prefix(v, i + 1, k@);
            }
            return t[i].1;
        }
        i = i + 1;
    }
    assert(v.take(i as int) =~= v);
    0
}

/// The classified group-keyed rows, in table order.
fn pattern_metric_rows(
    src: &KindSources,
    ast: Option<&AstUsages>,
    fns: &Vec<FnDecl>,
    lookups: &DefLookups,
    ctx: &SiteContext,
    counts: &Vec<(String, (usize, usize, usize))>,
    enums: &Vec<String>,
    crate_dirs: &IndexMap<String, String>,
    filters: &FiltersConfig,
    min_outers: usize,
    examples: &Vec<(String, usize)>,
    classifier: &ClassifierConfig,
) -> (r: Vec<(String, PatternMetric)>)
    ensures
        metric_rows_view(r@) == classified_rows(
            translate_view(
                kind_and_synthesized(
                    *src,
                    match ast {
                        Some(u) => Some(*u),
                        None => None,
                    },
                    fns@,
                    *lookups,
                    *ctx,
                    triples_view(counts@),
                    strings_view(enums@),
                    dir_entries(*crate_dirs),
                    *filters,
                    min_outers as nat,
                ),
                *lookups,
                strings_view(enums@),
            ),
            example_table_view(examples@),
            src.impls@,
            src.macros@,
            *classifier,
        ),
        keys_group_prefixed(metric_rows_view(r@)),
        rows_crateless_zero(metric_rows_view(r@)),
{
    let mut rows = kind_pattern_metrics(src, lookups, ctx, counts, filters);
    if let Some(u) = ast {
        synthesize_pub_types(&mut rows, u, lookups, ctx, crate_dirs, filters);
        synthesize_ref_rows(&mut rows, &u.method_refs, lookups, enums, ctx, crate_dirs, filters, min_outers);
        synthesize_free_fns(&mut rows, &u.fn_calls, fns, ctx, crate_dirs, filters);
    }
    let mut out = translate_to_group_keys(&rows, lookups, enums);
    let ghost grouped = metric_rows_view(out@);
    let ghost table = example_table_view(examples@);
    let mut ex: Vec<usize> = Vec::new();
    let mut i: usize = 0;
    while i < out.len()
        invariant
            i <= out@.len(),
            grouped == metric_rows_view(out@),
            table == example_table_view(examples@),
            ex@.len() == i,
            forall|k: int| 0 <= k < i ==> #[trigger] ex@[k] as nat == example_whole(table, grouped[k].0),
        decreases out@.len() - i,
    {
        let w = example_whole_exec(examples, out[i].0.as_str());
        ex.push(w);
        i = i + 1;
    }
    classify_sub_forms(&mut out, &ex, &src.impls, &src.macros, classifier);
    assert(metric_rows_view(out@) =~= classified_rows(grouped, table, src.impls@, src.macros@, *classifier));
    proof {
        lemma_translated_keys_grouped(metric_rows_view(rows@), *lookups, strings_view(enums@));
        assert forall|k: int| 0 <= k < metric_rows_view(out@).len() implies crate::grouping::group_prefixed(
            #[trigger] metric_rows_view(out@)[k].0,
        ) by {
            assert(metric_rows_view(out@)[k].0 == grouped[k].0);
        }
        lemma_crateless_rows_count_nothing(
            *src,
            match ast {
                Some(u) => Some(*u),
                None => None,
            },
            fns@,
            *lookups,
            *ctx,
            triples_view(counts@),
            strings_view(enums@),
            dir_entries(*crate_dirs),
            *filters,
            min_outers as nat,
            table,
            *classifier,
        );
    }
    out
}

/// A row without a defining crate counts nothing and is not public.
pub open spec fn crateless_zero(m: MetricView) -> bool {
    m.defining_crate is None ==> m.intra == 0 && m.inter == 0 && !m.is_pub
}

/// Every row of the table keeps `crateless_zero`.
pub open spec fn rows_crateless_zero(t: Seq<(Seq<char>, MetricView)>) -> bool {
    forall|i: int| 0 <= i < t.len() ==> crateless_zero(#[trigger] t[i].1)
}

proof fn lemma_push_ok(t: Seq<(Seq<char>, MetricView)>, k: Seq<char>, m: MetricView)
    requires
        rows_crateless_zero(t),
        crateless_zero(m),
    ensures
        rows_crateless_zero(t.push((k, m))),
{
    assert forall|i: int| 0 <= i < t.push((k, m)).len() implies crateless_zero(#[trigger] t.push((k, m))[i].1) by {
        if i < t.len() {
            assert(t.push((k, m))[i] == t[i]);
        }
    }
}

proof fn lemma_merged_ok(e: MetricView, m: MetricView)
    requires
        crateless_zero(e),
        crateless_zero(m),
    ensures
        crateless_zero(merged(e, m)),
{
}

proof fn lemma_merge_into_ok(t: Seq<(Seq<char>, MetricView)>, k: Seq<char>, m: MetricView)
    requires
        rows_crateless_zero(t),
        crateless_zero(m),
    ensures
        rows_crateless_zero(merge_into(t, k, m)),
{
    lemma_key_pos(t, k);
    match key_pos(t, k) {
        Some(j) => {
            lemma_merged_ok(t[j].1, m);
            let u = t.update(j, (k, merged(t[j].1, m)));
            assert forall|i: int| 0 <= i < u.len() implies crateless_zero(#[trigger] u[i].1) by {
                if i != j {
                    assert(u[i] == t[i]);
                }
            }
        },
        None => lemma_push_ok(t, k, m),
    }
}

proof fn lemma_usage_row_ok(files: Seq<Seq<char>>, d: Seq<char>, entries: Seq<(Seq<char>, Seq<char>)>, p: bool)
    ensures
        crateless_zero(usage_row(files, d, entries, p)),
{
}

proof fn lemma_kind_rows_ok(
    seen: Seq<(Seq<char>, Seq<char>)>,
    src: KindSources,
    l: DefLookups,
    ctx: SiteContext,
    counts: Seq<(Seq<char>, (nat, nat, nat))>,
    skips: Seq<String>,
)
    ensures
        rows_crateless_zero(kind_rows(seen, src, l, ctx, counts, skips)),
    decreases seen.len(),
{
    if seen.len() > 0 {
        lemma_kind_rows_ok(seen.drop_last(), src, l, ctx, counts, skips);
        let (k, x) = seen.last();
        match kind_row(k, x, src, l, ctx, counts, skips) {
            Some(m) => lemma_push_ok(kind_rows(seen.drop_last(), src, l, ctx, counts, skips), crate::metrics::kind_key(k, x), m),
            None => {},
        }
    }
}

proof fn lemma_pub_type_fold_ok(
    t: Seq<(Seq<char>, MetricView)>,
    ids: Seq<Seq<char>>,
    s: Seq<crate::synthesis::AstIdentUsage>,
    l: DefLookups,
    entries: Seq<(Seq<char>, Seq<char>)>,
    ctx: SiteContext,
    skips: Seq<String>,
)
    requires
        rows_crateless_zero(t),
    ensures
        rows_crateless_zero(pub_type_fold(t, ids, s, l, entries, ctx, skips)),
    decreases ids.len(),
{
    if ids.len() > 0 {
        lemma_pub_type_fold_ok(t, ids.drop_last(), s, l, entries, ctx, skips);
        let prev = pub_type_fold(t, ids.drop_last(), s, l, entries, ctx, skips);
        let ident = ids.last();
        match crate::synthesis::type_or_trait(l, ident) {
            Some(d) => {
                let files = crate::synthesis::credited_ident_files(s, ident, d.crate_name, entries, ctx);
                lemma_usage_row_ok(files, d.crate_name, entries, true);
                lemma_push_ok(prev, "pub_type:"@ + ident, usage_row(files, d.crate_name, entries, true));
            },
            None => {},
        }
    }
}

proof fn lemma_ref_rows_ok(
    t: Seq<(Seq<char>, MetricView)>,
    refs: Seq<crate::synthesis::AstMethodRef>,
    l: DefLookups,
    enums: Seq<Seq<char>>,
    filters: FiltersConfig,
    entries: Seq<(Seq<char>, Seq<char>)>,
    ctx: SiteContext,
    min_outers: nat,
)
    requires
        rows_crateless_zero(t),
    ensures
        rows_crateless_zero(ref_rows_view(t, refs, l, enums, filters, entries, ctx, min_outers)),
{
    let routes = routes_view(refs, l, enums, filters, entries, ctx);
    let skips = filters.pattern_skip_substrings@;
    lemma_assoc_fold_ok(t, class_keys(refs, routes, 0), refs, routes, l, entries, skips);
    let a = assoc_fold(t, class_keys(refs, routes, 0), refs, routes, l, entries, skips);
    lemma_variant_fold_ok(a, class_keys(refs, routes, 1), refs, routes, l, entries, skips);
    let v = variant_fold(a, class_keys(refs, routes, 1), refs, routes, l, entries, skips);
    lemma_family_fold_ok(v, class_keys(refs, routes, 2), refs, routes, entries, skips, min_outers);
}

proof fn lemma_assoc_fold_ok(
    t: Seq<(Seq<char>, MetricView)>,
    keys: Seq<Seq<char>>,
    refs: Seq<crate::synthesis::AstMethodRef>,
    routes: Seq<Option<(int, Seq<char>)>>,
    l: DefLookups,
    entries: Seq<(Seq<char>, Seq<char>)>,
    skips: Seq<String>,
)
    requires
        rows_crateless_zero(t),
    ensures
        rows_crateless_zero(assoc_fold(t, keys, refs, routes, l, entries, skips)),
    decreases keys.len(),
{
    if keys.len() > 0 {
        lemma_assoc_fold_ok(t, keys.drop_last(), refs, routes, l, entries, skips);
        let prev = assoc_fold(t, keys.drop_last(), refs, routes, l, entries, skips);
        let key = keys.last();
        match crate::synthesis::type_or_trait(l, crate::metrics::outer_of(key)) {
            Some(d) => {
                let f = crate::synthesis::member_files(crate::synthesis::class_members(refs, routes, 0, key));
                lemma_push_ok(prev, "assoc_const:"@ + key, usage_row(f, d.crate_name, entries, true));
            },
            None => {},
        }
    }
}

proof fn lemma_variant_fold_ok(
    t: Seq<(Seq<char>, MetricView)>,
    keys: Seq<Seq<char>>,
    refs: Seq<crate::synthesis::AstMethodRef>,
    routes: Seq<Option<(int, Seq<char>)>>,
    l: DefLookups,
    entries: Seq<(Seq<char>, Seq<char>)>,
    skips: Seq<String>,
)
    requires
        rows_crateless_zero(t),
    ensures
        rows_crateless_zero(variant_fold(t, keys, refs, routes, l, entries, skips)),
    decreases keys.len(),
{
    if keys.len() > 0 {
        lemma_variant_fold_ok(t, keys.drop_last(), refs, routes, l, entries, skips);
        let prev = variant_fold(t, keys.drop_last(), refs, routes, l, entries, skips);
        let key = keys.last();
        match first_value(crate::metrics::defs_view(l.types@), crate::metrics::outer_of(key)) {
            Some(d) => {
                let f = crate::synthesis::member_files(crate::synthesis::class_members(refs, routes, 1, key));
                assert forall|p: bool| crateless_zero(#[trigger] usage_row(f, d.crate_name, entries, p)) by {}
                assert forall|k: Seq<char>, m: MetricView| crateless_zero(m) implies #[trigger] rows_crateless_zero(
                    merge_into(prev, k, m),
                ) by {
                    lemma_merge_into_ok(prev, k, m);
                }
            },
            None => {},
        }
    }
}

proof fn lemma_family_fold_ok(
    t: Seq<(Seq<char>, MetricView)>,
    inners: Seq<Seq<char>>,
    refs: Seq<crate::synthesis::AstMethodRef>,
    routes: Seq<Option<(int, Seq<char>)>>,
    entries: Seq<(Seq<char>, Seq<char>)>,
    skips: Seq<String>,
    min_outers: nat,
)
    requires
        rows_crateless_zero(t),
    ensures
        rows_crateless_zero(family_fold(t, inners, refs, routes, entries, skips, min_outers)),
    decreases inners.len(),
{
    if inners.len() > 0 {
        lemma_family_fold_ok(t, inners.drop_last(), refs, routes, entries, skips, min_outers);
        let prev = family_fold(t, inners.drop_last(), refs, routes, entries, skips, min_outers);
        let inner = inners.last();
        let ms = crate::synthesis::class_members(refs, routes, 2, inner);
        let row = usage_row(
            crate::synthesis::member_files(ms),
            crate::synthesis::family_crate(ms, crate::synthesis::member_crates(ms)).0,
            entries,
            true,
        );
        lemma_push_ok(prev, "method_ref:_::"@ + inner, row);
    }
}

proof fn lemma_free_fn_fold_ok(
    t: Seq<(Seq<char>, MetricView)>,
    ns: Seq<Seq<char>>,
    calls: Seq<crate::synthesis::AstFnCall>,
    ts: Seq<Option<Seq<char>>>,
    entries: Seq<(Seq<char>, Seq<char>)>,
    skips: Seq<String>,
)
    requires
        rows_crateless_zero(t),
    ensures
        rows_crateless_zero(free_fn_fold(t, ns, calls, ts, entries, skips)),
    decreases ns.len(),
{
    if ns.len() > 0 {
        lemma_free_fn_fold_ok(t, ns.drop_last(), calls, ts, entries, skips);
        let prev = free_fn_fold(t, ns.drop_last(), calls, ts, entries, skips);
        let n = ns.last();
        let best = crate::synthesis::busiest_crate(calls, ts, n, crate::synthesis::called_crates(calls, ts, n));
        let row = usage_row(crate::synthesis::call_files(calls, ts, n, best), best, entries, true);
        lemma_push_ok(prev, "free_fn:"@ + n, row);
    }
}

proof fn lemma_translate_rows_ok(rows: Seq<(Seq<char>, MetricView)>, l: DefLookups, enums: Seq<Seq<char>>)
    requires
        rows_crateless_zero(rows),
    ensures
        rows_crateless_zero(translate_rows(rows, l, enums)),
    decreases rows.len(),
{
    if rows.len() > 0 {
        let d = rows.drop_last();
        assert forall|i: int| 0 <= i < d.len() implies crateless_zero(#[trigger] d[i].1) by {
            assert(d[i] == rows[i]);
        }
        lemma_translate_rows_ok(d, l, enums);
        assert(crateless_zero(rows[rows.len() - 1].1));
        match translate_key(rows.last().0, l, enums).0 {
            Some(k) => lemma_merge_into_ok(translate_rows(d, l, enums), k, rows.last().1),
            None => {},
        }
    }
}

proof fn lemma_aggregate_of_ok(rows: Seq<(Seq<char>, MetricView)>, l: DefLookups, enums: Seq<Seq<char>>, o: Seq<char>)
    requires
        rows_crateless_zero(rows),
    ensures
        crateless_zero(aggregate_of(rows, l, enums, o)),
    decreases rows.len(),
{
    if rows.len() > 0 {
        let d = rows.drop_last();
        assert forall|i: int| 0 <= i < d.len() implies crateless_zero(#[trigger] d[i].1) by {
            assert(d[i] == rows[i]);
        }
        lemma_aggregate_of_ok(d, l, enums, o);
        assert(crateless_zero(rows[rows.len() - 1].1));
        lemma_merged_ok(aggregate_of(d, l, enums, o), rows.last().1);
    }
}

proof fn lemma_aggregate_fold_ok(
    t: Seq<(Seq<char>, MetricView)>,
    outers: Seq<Seq<char>>,
    rows: Seq<(Seq<char>, MetricView)>,
    l: DefLookups,
    enums: Seq<Seq<char>>,
)
    requires
        rows_crateless_zero(t),
        rows_crateless_zero(rows),
    ensures
        rows_crateless_zero(aggregate_fold(t, outers, rows, l, enums)),
    decreases outers.len(),
{
    if outers.len() > 0 {
        lemma_aggregate_fold_ok(t, outers.drop_last(), rows, l, enums);
        lemma_aggregate_of_ok(rows, l, enums, outers.last());
        lemma_merge_into_ok(
            aggregate_fold(t, outers.drop_last(), rows, l, enums),
            "structure:"@ + outers.last(),
            aggregate_of(rows, l, enums, outers.last()),
        );
    }
}

/// Every pattern-metrics row without a defining crate counts no intra- or
/// inter-crate use and is not public, through the kind-keyed rows, the
/// synthesized rows, the translation into group keys and the sub-form step.
pub proof fn lemma_crateless_rows_count_nothing(
    src: KindSources,
    ast: Option<AstUsages>,
    fns: Seq<FnDecl>,
    l: DefLookups,
    ctx: SiteContext,
    counts: Seq<(Seq<char>, (nat, nat, nat))>,
    enums: Seq<Seq<char>>,
    entries: Seq<(Seq<char>, Seq<char>)>,
    filters: FiltersConfig,
    min_outers: nat,
    table: Seq<(Seq<char>, nat)>,
    classifier: ClassifierConfig,
)
    ensures
        rows_crateless_zero(
            classified_rows(
                translate_view(
                    kind_and_synthesized(src, ast, fns, l, ctx, counts, enums, entries, filters, min_outers),
                    l,
                    enums,
                ),
                table,
                src.impls@,
                src.macros@,
                classifier,
            ),
        ),
{
    let skips = filters.pattern_skip_substrings@;
    let base = kind_rows(seen_patterns(src), src, l, ctx, counts, skips);
    lemma_kind_rows_ok(seen_patterns(src), src, l, ctx, counts, skips);
    match ast {
        None => {},
        Some(u) => {
            lemma_pub_type_fold_ok(base, idents_in_order(ident_list(u)), ident_list(u), l, entries, ctx, skips);
            let a = pub_type_fold(base, idents_in_order(ident_list(u)), ident_list(u), l, entries, ctx, skips);
            lemma_ref_rows_ok(a, u.method_refs@, l, enums, filters, entries, ctx, min_outers);
            let b = ref_rows_view(a, u.method_refs@, l, enums, filters, entries, ctx, min_outers);
            let ts = call_targets(u.fn_calls@, fns, entries, ctx);
            lemma_free_fn_fold_ok(b, called_names(u.fn_calls@, ts), u.fn_calls@, ts, entries, skips);
        },
    }
    let rows = kind_and_synthesized(src, ast, fns, l, ctx, counts, enums, entries, filters, min_outers);
    lemma_translate_rows_ok(rows, l, enums);
    lemma_aggregate_fold_ok(translate_rows(rows, l, enums), aggregate_outers(rows, l, enums), rows, l, enums);
    let tv = translate_view(rows, l, enums);
    let c = classified_rows(tv, table, src.impls@, src.macros@, classifier);
    assert forall|i: int| 0 <= i < c.len() implies crateless_zero(#[trigger] c[i].1) by {
        assert(crateless_zero(tv[i].1));
    }
}

/// The sub-form rule: classification keeps every row's key and counts and
/// sets its sub-form by its group. A `structure:` row is `Foundational` when
/// intra + inter + the whole example count the table gives its key reaches
/// the foundational minimum, else `Incidental`; a `traits:` row is
/// `Lifecycle` when its trait has at least the threshold of non-gated
/// impls, else `Marker`; a `utilities:` row is `Macro` when a macro fact
/// carries its name, else `FreeFn`; a row of any other group has none.
pub proof fn lemma_sub_form_rule(
    rows: Seq<(Seq<char>, MetricView)>,
    table: Seq<(Seq<char>, nat)>,
    impls: Seq<PatternFact>,
    macros: Seq<PatternFact>,
    c: ClassifierConfig,
)
    ensures
        classified_rows(rows, table, impls, macros, c).len() == rows.len(),
        forall|k: int|
            0 <= k < rows.len() ==> {
                let row = #[trigger] classified_rows(rows, table, impls, macros, c)[k];
                &&& row.0 == rows[k].0
                &&& MetricView { sub_form: rows[k].1.sub_form, ..row.1 } == rows[k].1
                &&& split_once(rows[k].0, ":"@) matches Some((g, name)) ==> row.1.sub_form == if g == "structure"@ {
                    Some(
                        if rows[k].1.intra + rows[k].1.inter + example_whole(table, rows[k].0)
                            >= c.foundational_min_total {
                            SubForm::Foundational
                        } else {
                            SubForm::Incidental
                        },
                    )
                } else if g == "traits"@ {
                    Some(
                        if trait_impl_count(impls, name) >= c.lifecycle_impl_threshold {
                            SubForm::Lifecycle
                        } else {
                            SubForm::Marker
                        },
                    )
                } else if g == "utilities"@ {
                    Some(
                        if exists|i: int| 0 <= i < macros.len() && opt_view((#[trigger] macros[i]).name) == Some(name) {
                            SubForm::Macro
                        } else {
                            SubForm::FreeFn
                        },
                    )
                } else {
                    None
                }
            },
{
}

/// The value of a pattern-metrics table: each key with its metrics row.
pub open spec fn metric_entries_view(t: Seq<(Seq<char>, PatternMetric)>) -> Seq<(Seq<char>, MetricView)> {
    t.map_values(|p: (Seq<char>, PatternMetric)| (p.0, p.1@))
}

/// No key occurs twice.
pub open spec fn keys_distinct(t: Seq<(Seq<char>, MetricView)>) -> bool {
    forall|i: int, j: int| 0 <= i < j < t.len() ==> (#[trigger] t[i]).0 != (#[trigger] t[j]).0
}

proof fn lemma_key_pos_none<V>(t: Seq<(Seq<char>, V)>, k: Seq<char>)
    ensures
        key_pos(t, k) is None ==> forall|x: int| 0 <= x < t.len() ==> (#[trigger] t[x]).0 != k,
    decreases t.len(),
{
    if t.len() > 0 {
        lemma_key_pos_none(t.drop_last(), k);
        if key_pos(t, k) is None {
            assert forall|x: int| 0 <= x < t.len() implies (#[trigger] t[x]).0 != k by {
                if x < t.len() - 1 {
                    assert(t.drop_last()[x] == t[x]);
                }
            }
        }
    }
}

proof fn lemma_merge_into_distinct(t: Seq<(Seq<char>, MetricView)>, k: Seq<char>, m: MetricView)
    requires
        keys_distinct(t),
    ensures
        keys_distinct(merge_into(t, k, m)),
{
    lemma_key_pos(t, k);
    lemma_key_pos_none(t, k);
    let u = merge_into(t, k, m);
    match key_pos(t, k) {
        Some(p) => {
            assert forall|a: int, b: int| 0 <= a < b < u.len() implies (#[trigger] u[a]).0 != (#[trigger] u[b]).0 by {
                assert(u[a].0 == t[a].0 && u[b].0 == t[b].0);
            }
        },
        None => {
            assert forall|a: int, b: int| 0 <= a < b < u.len() implies (#[trigger] u[a]).0 != (#[trigger] u[b]).0 by {
                if b == t.len() {
                    assert(u[a] == t[a]);
                } else {
                    assert(u[a] == t[a] && u[b] == t[b]);
                }
            }
        },
    }
}

proof fn lemma_translate_rows_distinct(rows: Seq<(Seq<char>, MetricView)>, l: DefLookups, enums: Seq<Seq<char>>)
    ensures
        keys_distinct(translate_rows(rows, l, enums)),
    decreases rows.len(),
{
    if rows.len() > 0 {
        lemma_translate_rows_distinct(rows.drop_last(), l, enums);
        match translate_key(rows.last().0, l, enums).0 {
            Some(k) => lemma_merge_into_distinct(translate_rows(rows.drop_last(), l, enums), k, rows.last().1),
            None => {},
        }
    }
}

proof fn lemma_aggregate_fold_distinct(
    t: Seq<(Seq<char>, MetricView)>,
    outers: Seq<Seq<char>>,
    rows: Seq<(Seq<char>, MetricView)>,
    l: DefLookups,
    enums: Seq<Seq<char>>,
)
    requires
        keys_distinct(t),
    ensures
        keys_distinct(aggregate_fold(t, outers, rows, l, enums)),
    decreases outers.len(),
{
    if outers.len() > 0 {
        lemma_aggregate_fold_distinct(t, outers.drop_last(), rows, l, enums);
        lemma_merge_into_distinct(
            aggregate_fold(t, outers.drop_last(), rows, l, enums),
            "structure:"@ + outers.last(),
            aggregate_of(rows, l, enums, outers.last()),
        );
    }
}

/// Each group key of the translated table occurs once.
proof fn lemma_classified_keys_distinct(
    rows: Seq<(Seq<char>, MetricView)>,
    l: DefLookups,
    enums: Seq<Seq<char>>,
    table: Seq<(Seq<char>, nat)>,
    impls: Seq<PatternFact>,
    macros: Seq<PatternFact>,
    c: ClassifierConfig,
)
    ensures
        keys_distinct(classified_rows(translate_view(rows, l, enums), table, impls, macros, c)),
{
    lemma_translate_rows_distinct(rows, l, enums);
    lemma_aggregate_fold_distinct(translate_rows(rows, l, enums), aggregate_outers(rows, l, enums), rows, l, enums);
    let t = translate_view(rows, l, enums);
    let u = classified_rows(t, table, impls, macros, c);
    assert forall|a: int, b: int| 0 <= a < b < u.len() implies (#[trigger] u[a]).0 != (#[trigger] u[b]).0 by {
        assert(u[a].0 == t[a].0 && u[b].0 == t[b].0);
    }
}

/// The workspace's group-keyed pattern metrics: the kind-keyed rows of every
/// pattern the facts name, then (with syntax-tree sites) the synthesized
/// public-type, associated-constant, variant-reference, method-family and
/// free-function rows, all translated into the picks model's group keys, and
/// finally each row's sub-form set from the general signals (`structure:`
/// rows by intra + inter + the whole part of the example count that
/// `examples` lists for the key, `traits:` rows by non-gated impl count,
/// `utilities:` rows by macro presence, other groups none). Each group key
/// occurs once, in the table's order.
pub fn compute_pattern_metrics(
    src: &KindSources,
    ast: Option<&AstUsages>,
    fns: &Vec<FnDecl>,
    lookups: &DefLookups,
    ctx: &SiteContext,
    counts: &Vec<(String, (usize, usize, usize))>,
    enums: &Vec<String>,
    crate_dirs: &IndexMap<String, String>,
    filters: &FiltersConfig,
    min_outers: usize,
    examples: &Vec<(String, usize)>,
    classifier: &ClassifierConfig,
) -> (r: IndexMap<String, PatternMetric>)
    ensures
        metric_entries_view(metric_entries(r)) == classified_rows(
            translate_view(
                kind_and_synthesized(
                    *src,
                    match ast {
                        Some(u) => Some(*u),
                        None => None,
                    },
                    fns@,
                    *lookups,
                    *ctx,
                    triples_view(counts@),
                    strings_view(enums@),
                    dir_entries(*crate_dirs),
                    *filters,
                    min_outers as nat,
                ),
                *lookups,
                strings_view(enums@),
            ),
            example_table_view(examples@),
            src.impls@,
            src.macros@,
            *classifier,
        ),
        keys_group_prefixed(metric_entries_view(metric_entries(r))),
        rows_crateless_zero(metric_entries_view(metric_entries(r))),
        keys_distinct(metric_entries_view(metric_entries(r))),
{
    let mut rest = pattern_metric_rows(src, ast, fns, lookups, ctx, counts, enums, crate_dirs, filters, min_outers, examples, classifier);
    let ghost all = metric_rows_view(rest@);
    let ghost ents = rest@.map_values(|p: (String, PatternMetric)| (p.0@, p.1));
    proof {
        lemma_classified_keys_distinct(
            kind_and_synthesized(
                *src,
                match ast {
                    Some(u) => Some(*u),
                    None => None,
                },
                fns@,
                *lookups,
                *ctx,
                triples_view(counts@),
                strings_view(enums@),
                dir_entries(*crate_dirs),
                *filters,
                min_outers as nat,
            ),
            *lookups,
            strings_view(enums@),
            example_table_view(examples@),
            src.impls@,
            src.macros@,
            *classifier,
        );
    }
    let mut m = metric_map_new();
    let total = rest.len();
    let ghost n = rest@.len();
    let ghost orig = rest@;
    let mut i: usize = 0;
    while rest.len() > 0
        invariant
            i + rest@.len() == n,
            n == orig.len(),
            n == total,
            all == metric_rows_view(orig),
            ents == orig.map_values(|p: (String, PatternMetric)| (p.0@, p.1)),
            keys_distinct(all),
            rest@ == orig.skip(i as int),
            metric_entries(m) == ents.take(i as int),
        decreases rest@.len(),
    {
        let (k, v) = rest.remove(0);
        assert(orig.skip(i as int)[0] == orig[i as int]);
        proof {
            lemma_key_pos(ents.take(i as int), k@);
            if key_pos(ents.take(i as int), k@) is Some {
                let x = key_pos(ents.take(i as int), k@)->Some_0;
                assert(all[x].0 == ents[x].0);
                assert(all[i as int].0 == k@);
                assert(false);
            }
        }
        metric_map_insert(&mut m, k, v);
        assert(ents.take(i + 1) =~= ents.take(i as int).push((orig[i as int].0@, orig[i as int].1)));
        assert(rest@ =~= orig.skip(i + 1));
        i = i + 1;
    }
    assert(ents.take(i as int) =~= ents);
    assert(metric_entries_view(ents) =~= all);
    m
}

} // verus!
