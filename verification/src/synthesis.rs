//! Metrics rows synthesized from syntax-tree usage sites: public types used
//! in signatures, fields and aliases; associated constants, enum variant
//! references and method families reached through `Outer::inner` paths;
//! and free functions reached through call heads.

use vstd::prelude::*;
use indexmap::IndexMap;
use crate::assoc::{first_value, has_key};
use crate::config::{FiltersConfig, matches_any_substring, should_skip_pattern};
use crate::crate_map::dir_entries;
use crate::fingerprint::{MetricView, PatternMetric};
use crate::grouping::merge_into;
use crate::metrics::{DefLookups, DefView, PatternDef, SiteContext, defs_view, metric_rows_view, outer_of};
use crate::emit_text::{is_src_file, src_file_view};
use crate::metrics::{opt_is, owned_or_empty, text_or_empty};
use crate::resolution::{
    IdentOrigin, OriginView, credits_view, ident_origin, resolve_ident_origin, member_of, opt_view, resolve_root_view, resolve_site_origin, site_credits,
    site_origin, strings_view, clone_opt,
};
use crate::text::{push_str, starts_with, str_eq, str_starts_with};
use crate::usage::{
    constant_shaped, count_usages, crate_for_file, is_constant_shaped, is_variant_shaped, resolve_crate_for_file,
    usage_fold, variant_shaped,
};

verus! {

/// A syntax-tree usage of an identifier (in a signature, a field or a type
/// alias): the identifier, the file, and the written path qualifier.
#[derive(Debug, Clone)]
pub struct AstIdentUsage {
    pub ident: String,
    pub file: String,
    pub qualifier: Option<String>,
}

/// A syntax-tree `Outer::inner` path reference.
#[derive(Debug, Clone)]
pub struct AstMethodRef {
    pub outer: String,
    pub inner: String,
    pub file: String,
    pub qualifier: Option<String>,
}

/// A syntax-tree call head naming a function.
#[derive(Debug, Clone)]
pub struct AstFnCall {
    pub name: String,
    pub file: String,
    pub qualifier: Option<String>,
}

/// The syntax-tree usage sites of a workspace.
#[derive(Debug, Clone)]
pub struct AstUsages {
    pub fn_sig: Vec<AstIdentUsage>,
    pub fields: Vec<AstIdentUsage>,
    pub type_aliases: Vec<AstIdentUsage>,
    pub method_refs: Vec<AstMethodRef>,
    pub fn_calls: Vec<AstFnCall>,
}

/// The declaration of a name as a type, else as a trait.
pub open spec fn type_or_trait(l: DefLookups, name: Seq<char>) -> Option<DefView> {
    match first_value(defs_view(l.types@), name) {
        Some(d) => Some(d),
        None => first_value(defs_view(l.traits@), name),
    }
}

/// The row of a synthesized pattern from its site files: the usage counts
/// of the files against the defining crate, the curated example files, and
/// the evidence files at weight one.
pub open spec fn usage_row(
    files: Seq<Seq<char>>,
    defining: Seq<char>,
    entries: Seq<(Seq<char>, Seq<char>)>,
    is_pub: bool,
) -> MetricView {
    let u = usage_fold(files, defining, entries);
    MetricView {
        defining_crate: Some(defining),
        intra: u.0,
        inter: u.1,
        is_pub,
        curated: u.3.len(),
        sub_form: None,
        evidence: (u.2.len(), 0, 0),
    }
}

/// The identifier usages in signatures, then fields, then type aliases.
pub open spec fn ident_list(u: AstUsages) -> Seq<AstIdentUsage> {
    u.fn_sig@ + u.fields@ + u.type_aliases@
}

/// The non-empty identifiers used, each once, in first-seen order.
pub open spec fn idents_in_order(s: Seq<AstIdentUsage>) -> Seq<Seq<char>>
    decreases s.len(),
{
    if s.len() == 0 {
        Seq::empty()
    } else {
        let prev = idents_in_order(s.drop_last());
        let id = s.last().ident@;
        if id.len() == 0 || prev.contains(id) {
            prev
        } else {
            prev.push(id)
        }
    }
}

/// The site files among `s` of identifier `ident` that credit a pattern
/// declared in `defining`, each site read from the crate owning its file.
pub open spec fn credited_ident_files(
    s: Seq<AstIdentUsage>,
    ident: Seq<char>,
    defining: Seq<char>,
    entries: Seq<(Seq<char>, Seq<char>)>,
    ctx: SiteContext,
) -> Seq<Seq<char>>
    decreases s.len(),
{
    if s.len() == 0 {
        Seq::empty()
    } else {
        let prev = credited_ident_files(s.drop_last(), ident, defining, entries, ctx);
        let h = s.last();
        let using = crate_for_file(h.file@, entries);
        let origin = site_origin(
            h.file@,
            ident,
            opt_view(h.qualifier),
            using,
            ctx.import_maps@,
            ctx.vocab@,
            ctx.local_decl_crates@,
            ctx.local_mod_crates@,
        );
        if h.ident@ == ident && credits_view(
            origin,
            using,
            defining,
            ident,
            ctx.facades.leaf_reexports@,
            ctx.facades.ns_closure@,
        ) {
            prev.push(h.file@)
        } else {
            prev
        }
    }
}

/// The table after considering `pub_type:<ident>`: a public type or trait
/// declaration whose key is neither skipped nor present, with at least one
/// credited site, adds its public row.
pub open spec fn pub_type_step(
    table: Seq<(Seq<char>, MetricView)>,
    ident: Seq<char>,
    s: Seq<AstIdentUsage>,
    l: DefLookups,
    entries: Seq<(Seq<char>, Seq<char>)>,
    ctx: SiteContext,
    skips: Seq<String>,
) -> Seq<(Seq<char>, MetricView)> {
    match type_or_trait(l, ident) {
        None => table,
        Some(d) => {
            let key = "pub_type:"@ + ident;
            if !starts_with(d.visibility, "pub"@) || matches_any_substring(key, skips) || has_key(table, key) {
                table
            } else {
                let files = credited_ident_files(s, ident, d.crate_name, entries, ctx);
                if files.len() == 0 {
                    table
                } else {
                    table.push((key, usage_row(files, d.crate_name, entries, true)))
                }
            }
        },
    }
}

/// The table after the `pub_type` rows of the identifiers `ids`, in order.
pub open spec fn pub_type_fold(
    table: Seq<(Seq<char>, MetricView)>,
    ids: Seq<Seq<char>>,
    s: Seq<AstIdentUsage>,
    l: DefLookups,
    entries: Seq<(Seq<char>, Seq<char>)>,
    ctx: SiteContext,
    skips: Seq<String>,
) -> Seq<(Seq<char>, MetricView)>
    decreases ids.len(),
{
    if ids.len() == 0 {
        table
    } else {
        pub_type_step(pub_type_fold(table, ids.drop_last(), s, l, entries, ctx, skips), ids.last(), s, l, entries, ctx, skips)
    }
}

/// Whether a metrics table has a row keyed `key`.
pub fn table_has(t: &Vec<(String, PatternMetric)>, key: &str) -> (r: bool)
    ensures
        r == has_key(metric_rows_view(t@), key@),
{
    let ghost tv = metric_rows_view(t@);
    let mut i: usize = 0;
    while i < t.len()
        invariant
            i <= t@.len(),
            tv == metric_rows_view(t@),
            !has_key(tv.take(i as int), key@),
        decreases t@.len() - i,
    {
        proof {
            assert(tv.take(i + 1).drop_last() =~= tv.take(i as int));
        }
        if str_eq(t[i].0.as_str(), key) {
            proof {
                crate::assoc::lemma_first_value_exists(tv, key@);
                assert(tv[i as int].0 == key@);
            }
            return true;
        }
        i = i + 1;
    }
    assert(tv.take(i as int) =~= tv);
    false
}

pub(crate) fn find_def<'a>(t: &'a Vec<(String, PatternDef)>, name: &str) -> (r: Option<&'a PatternDef>)
    ensures
        match r {
            Some(d) => first_value(defs_view(t@), name@) == Some(d@),
            None => first_value(defs_view(t@), name@) is None,
        },
{
    let ghost tv = defs_view(t@);
    let mut i: usize = 0;
    while i < t.len()
        invariant
            i <= t@.len(),
            tv == defs_view(t@),
            first_value(tv.take(i as int), name@) is None,
        decreases t@.len() - i,
    {
        proof {
            crate::assoc::lemma_first_value_step(tv, i as int, name@);
        }
        if str_eq(t[i].0.as_str(), name) {
            proof {
                crate::assoc::lemma_first_value_prefix(tv, i + 1, name@);
            }
            return Some(&t[i].1);
        }
        i = i + 1;
    }
    assert(tv.take(i as int) =~= tv);
    None
}

pub(crate) fn find_type_or_trait<'a>(l: &'a DefLookups, name: &str) -> (r: Option<&'a PatternDef>)
    ensures
        match r {
            Some(d) => type_or_trait(*l, name@) == Some(d@),
            None => type_or_trait(*l, name@) is None,
        },
{
    match find_def(&l.types, name) {
        Some(d) => Some(d),
        None => find_def(&l.traits, name),
    }
}

fn append_ident_usages(out: &mut Vec<AstIdentUsage>, src: &Vec<AstIdentUsage>)
    ensures
        final(out)@ == old(out)@ + src@,
{
    let ghost start = out@;
    let mut i: usize = 0;
    while i < src.len()
        invariant
            i <= src@.len(),
            out@ == start + src@.take(i as int),
        decreases src@.len() - i,
    {
        let u = &src[i];
        out.push(AstIdentUsage { ident: u.ident.clone(), file: u.file.clone(), qualifier: clone_opt(&u.qualifier) });
        assert(src@.take(i + 1) =~= src@.take(i as int).push(src@[i as int]));
        assert(out@ =~= start + src@.take(i + 1));
        i = i + 1;
    }
    assert(src@.take(i as int) =~= src@);
}

fn ident_order(s: &Vec<AstIdentUsage>) -> (r: Vec<String>)
    ensures
        strings_view(r@) == idents_in_order(s@),
{
    let mut r: Vec<String> = Vec::new();
    let mut i: usize = 0;
    while i < s.len()
        invariant
            i <= s@.len(),
            strings_view(r@) == idents_in_order(s@.take(i as int)),
        decreases s@.len() - i,
    {
        proof {
            assert(s@.take(i + 1).drop_last() =~= s@.take(i as int));
            assert(s@.take(i + 1).last() == s@[i as int]);
        }
        let id = &s[i].ident;
        if !id.as_str().is_empty() && !crate::resolution::strings_contain(&r, id.as_str()) {
            let ghost before = strings_view(r@);
            r.push(id.clone());
            assert(strings_view(r@) =~= before.push(id@));
        }
        i = i + 1;
    }
    assert(s@.take(i as int) =~= s@);
    r
}

fn credited_files_of(
    s: &Vec<AstIdentUsage>,
    ident: &str,
    defining: &str,
    crate_dirs: &IndexMap<String, String>,
    ctx: &SiteContext,
) -> (r: Vec<String>)
    ensures
        strings_view(r@) == credited_ident_files(s@, ident@, defining@, dir_entries(*crate_dirs), *ctx),
{
    let mut r: Vec<String> = Vec::new();
    let mut i: usize = 0;
    while i < s.len()
        invariant
            i <= s@.len(),
            strings_view(r@) == credited_ident_files(
                s@.take(i as int),
                ident@,
                defining@,
                dir_entries(*crate_dirs),
                *ctx,
            ),
        decreases s@.len() - i,
    {
        proof {
            assert(s@.take(i + 1).drop_last() =~= s@.take(i as int));
            assert(s@.take(i + 1).last() == s@[i as int]);
        }
        let h = &s[i];
        if str_eq(h.ident.as_str(), ident) {
            let using = resolve_crate_for_file(h.file.as_str(), crate_dirs);
            let q: Option<&str> = match &h.qualifier {
                Some(q) => Some(q.as_str()),
                None => None,
            };
            let origin = resolve_site_origin(
                h.file.as_str(),
                ident,
                q,
                using.as_str(),
                &ctx.import_maps,
                &ctx.vocab,
                &ctx.local_decl_crates,
                &ctx.local_mod_crates,
            );
            if site_credits(&origin, using.as_str(), defining, ident, &ctx.facades) {
                let ghost before = strings_view(r@);
                r.push(h.file.clone());
                assert(strings_view(r@) =~= before.push(h.file@));
            }
        }
        i = i + 1;
    }
    assert(s@.take(i as int) =~= s@);
    r
}

/// The row built from a pattern's site files counted against its defining
/// crate.
pub(crate) fn usage_row_exec(
    files: &Vec<String>,
    defining: &str,
    crate_dirs: &IndexMap<String, String>,
    is_pub: bool,
) -> (r: PatternMetric)
    ensures
        r@ == usage_row(strings_view(files@), defining@, dir_entries(*crate_dirs), is_pub),
{
    let (intra, inter, ev, cur) = count_usages(files, defining, crate_dirs);
    PatternMetric {
        defining_crate: Some(defining.to_string()),
        intra_count: intra,
        inter_count: inter,
        is_pub,
        curated_example_count: cur,
        sub_form: None,
        example_files: ev,
        example_test_files: 0,
        example_bench_files: 0,
    }
}

/// Adds the `pub_type:<ident>` rows: every identifier used in a signature,
/// field or type alias (first-seen order) that names a public type or
/// trait gets a public row from its credited sites, unless its key is
/// skipped, already present, or no site credits it.
pub fn synthesize_pub_types(
    table: &mut Vec<(String, PatternMetric)>,
    usages: &AstUsages,
    lookups: &DefLookups,
    ctx: &SiteContext,
    crate_dirs: &IndexMap<String, String>,
    filters: &FiltersConfig,
)
    ensures
        metric_rows_view(final(table)@) == pub_type_fold(
            metric_rows_view(old(table)@),
            idents_in_order(ident_list(*usages)),
            ident_list(*usages),
            *lookups,
            dir_entries(*crate_dirs),
            *ctx,
            filters.pattern_skip_substrings@,
        ),
{
    proof {
        reveal_strlit("pub");
        reveal_strlit("pub_type:");
    }
    let mut all: Vec<AstIdentUsage> = Vec::new();
    append_ident_usages(&mut all, &usages.fn_sig);
    append_ident_usages(&mut all, &usages.fields);
    append_ident_usages(&mut all, &usages.type_aliases);
    assert(all@ =~= ident_list(*usages));
    let ids = ident_order(&all);
    let ghost iv = strings_view(ids@);
    let ghost start = metric_rows_view(table@);
    let ghost es = dir_entries(*crate_dirs);
    let ghost skips = filters.pattern_skip_substrings@;
    let mut j: usize = 0;
    while j < ids.len()
        invariant
            j <= ids@.len(),
            iv == strings_view(ids@),
            all@ == ident_list(*usages),
            es == dir_entries(*crate_dirs),
            skips == filters.pattern_skip_substrings@,
            metric_rows_view(table@) == pub_type_fold(start, iv.take(j as int), all@, *lookups, es, *ctx, skips),
        decreases ids@.len() - j,
    {
        proof {
            assert(iv.take(j + 1).drop_last() =~= iv.take(j as int));
            assert(iv.take(j + 1).last() == ids@[j as int]@);
        }
        let ident = ids[j].as_str();
        if let Some(d) = find_type_or_trait(lookups, ident) {
            let mut key = "pub_type:".to_string();
            push_str(&mut key, ident);
            if str_starts_with(d.visibility.as_str(), "pub") && !should_skip_pattern(key.as_str(), filters) && !table_has(
                table,
                key.as_str(),
            ) {
                let files = credited_files_of(&all, ident, d.crate_name.as_str(), crate_dirs, ctx);
                if files.len() > 0 {
                    let row = usage_row_exec(&files, d.crate_name.as_str(), crate_dirs, true);
                    let ghost before = metric_rows_view(table@);
                    let ghost rv = row@;
                    table.push((key, row));
                    assert(metric_rows_view(table@) =~= before.push(("pub_type:"@ + ident@, rv)));
                }
            }
        }
        j = j + 1;
    }
    assert(iv.take(j as int) =~= iv);
}

/// Where an `Outer::inner` reference goes: nowhere when either part is
/// empty or skipped, when the outer names no type or trait, or when its
/// site does not credit the declaring crate; else, with the declaring
/// crate, to the associated constants (constant-shaped inner, class 0), to
/// the enum variant references (variant-shaped inner on an enum, class 1),
/// or to the method families (class 2).
pub open spec fn ref_route(
    r: AstMethodRef,
    l: DefLookups,
    enums: Seq<Seq<char>>,
    filters: FiltersConfig,
    entries: Seq<(Seq<char>, Seq<char>)>,
    ctx: SiteContext,
) -> Option<(int, Seq<char>)> {
    if r.outer@.len() == 0 || r.inner@.len() == 0 || strings_view(filters.method_ref_outer_skip@).contains(r.outer@)
        || strings_view(filters.method_ref_inner_skip@).contains(r.inner@) {
        None
    } else {
        match type_or_trait(l, r.outer@) {
            None => None,
            Some(d) => {
                let using = crate_for_file(r.file@, entries);
                let origin = site_origin(
                    r.file@,
                    r.outer@,
                    opt_view(r.qualifier),
                    using,
                    ctx.import_maps@,
                    ctx.vocab@,
                    ctx.local_decl_crates@,
                    ctx.local_mod_crates@,
                );
                if !credits_view(origin, using, d.crate_name, r.outer@, ctx.facades.leaf_reexports@, ctx.facades.ns_closure@) {
                    None
                } else if constant_shaped(r.inner@) {
                    Some((0, d.crate_name))
                } else if variant_shaped(r.inner@) && enums.contains(r.outer@) {
                    Some((1, d.crate_name))
                } else {
                    Some((2, d.crate_name))
                }
            },
        }
    }
}

/// The routes of all references, in order.
pub open spec fn routes_view(
    refs: Seq<AstMethodRef>,
    l: DefLookups,
    enums: Seq<Seq<char>>,
    filters: FiltersConfig,
    entries: Seq<(Seq<char>, Seq<char>)>,
    ctx: SiteContext,
) -> Seq<Option<(int, Seq<char>)>> {
    refs.map_values(|r: AstMethodRef| ref_route(r, l, enums, filters, entries, ctx))
}

/// The `Outer::inner` key of a reference.
pub open spec fn ref_key(r: AstMethodRef) -> Seq<char> {
    r.outer@ + "::"@ + r.inner@
}

/// The distinct keys of the references routed to `class` (associated
/// constants and variant references by `Outer::inner`, method families by
/// `inner`), in first-seen order.
pub open spec fn class_keys(refs: Seq<AstMethodRef>, routes: Seq<Option<(int, Seq<char>)>>, class: int) -> Seq<Seq<char>>
    decreases refs.len(),
{
    if refs.len() == 0 || routes.len() != refs.len() {
        Seq::empty()
    } else {
        let prev = class_keys(refs.drop_last(), routes.drop_last(), class);
        let k = if class == 2 {
            refs.last().inner@
        } else {
            ref_key(refs.last())
        };
        match routes.last() {
            Some((c, _)) => if c == class && !prev.contains(k) {
                prev.push(k)
            } else {
                prev
            },
            None => prev,
        }
    }
}

/// The references routed to `class` under key `k`, with their declaring
/// crates, in order.
pub open spec fn class_members(
    refs: Seq<AstMethodRef>,
    routes: Seq<Option<(int, Seq<char>)>>,
    class: int,
    k: Seq<char>,
) -> Seq<(AstMethodRef, Seq<char>)>
    decreases refs.len(),
{
    if refs.len() == 0 || routes.len() != refs.len() {
        Seq::empty()
    } else {
        let prev = class_members(refs.drop_last(), routes.drop_last(), class, k);
        let key = if class == 2 {
            refs.last().inner@
        } else {
            ref_key(refs.last())
        };
        match routes.last() {
            Some((c, d)) => if c == class && key == k {
                prev.push((refs.last(), d))
            } else {
                prev
            },
            None => prev,
        }
    }
}

/// The site files of members.
pub open spec fn member_files(ms: Seq<(AstMethodRef, Seq<char>)>) -> Seq<Seq<char>> {
    ms.map_values(|m: (AstMethodRef, Seq<char>)| m.0.file@)
}
/// The type names declared as enums.
pub open spec fn enum_names(types: Seq<crate::metrics::ItemDecl>) -> Seq<Seq<char>>
    decreases types.len(),
{
    if types.len() == 0 {
        Seq::empty()
    } else {
        let prev = enum_names(types.drop_last());
        let t = types.last();
        match t.name {
            Some(n) => if opt_view(t.kind) == Some("enum"@) {
                prev.push(n@)
            } else {
                prev
            },
            None => prev,
        }
    }
}

/// The names of the types declared as enums.
pub fn enum_type_names(types: &Vec<crate::metrics::ItemDecl>) -> (r: Vec<String>)
    ensures
        strings_view(r@) == enum_names(types@),
{
    proof {
        reveal_strlit("enum");
    }
    let mut r: Vec<String> = Vec::new();
    let mut i: usize = 0;
    while i < types.len()
        invariant
            i <= types@.len(),
            strings_view(r@) == enum_names(types@.take(i as int)),
        decreases types@.len() - i,
    {
        proof {
            assert(types@.take(i + 1).drop_last() =~= types@.take(i as int));
            assert(types@.take(i + 1).last() == types@[i as int]);
        }
        let t = &types[i];
        if let Some(n) = &t.name {
            let is_enum = match &t.kind {
                Some(k) => str_eq(k.as_str(), "enum"),
                None => false,
            };
            if is_enum {
                let ghost before = strings_view(r@);
                r.push(n.clone());
                assert(strings_view(r@) =~= before.push(n@));
            }
        }
        i = i + 1;
    }
    assert(types@.take(i as int) =~= types@);
    r
}

fn route_ref(
    r: &AstMethodRef,
    lookups: &DefLookups,
    enums: &Vec<String>,
    filters: &FiltersConfig,
    crate_dirs: &IndexMap<String, String>,
    ctx: &SiteContext,
) -> (out: Option<(u8, String)>)
    ensures
        match out {
            Some((c, d)) => ref_route(*r, *lookups, strings_view(enums@), *filters, dir_entries(*crate_dirs), *ctx) == Some(
                (c as int, d@),
            ),
            None => ref_route(*r, *lookups, strings_view(enums@), *filters, dir_entries(*crate_dirs), *ctx) is None,
        },
{
    if r.outer.as_str().is_empty() || r.inner.as_str().is_empty() || crate::resolution::strings_contain(
        &filters.method_ref_outer_skip,
        r.outer.as_str(),
    ) || crate::resolution::strings_contain(&filters.method_ref_inner_skip, r.inner.as_str()) {
        return None;
    }
    let d = match find_type_or_trait(lookups, r.outer.as_str()) {
        Some(d) => d,
        None => return None,
    };
    let using = resolve_crate_for_file(r.file.as_str(), crate_dirs);
    let q: Option<&str> = match &r.qualifier {
        Some(q) => Some(q.as_str()),
        None => None,
    };
    let origin = resolve_site_origin(
        r.file.as_str(),
        r.outer.as_str(),
        q,
        using.as_str(),
        &ctx.import_maps,
        &ctx.vocab,
        &ctx.local_decl_crates,
        &ctx.local_mod_crates,
    );
    if !site_credits(&origin, using.as_str(), d.crate_name.as_str(), r.outer.as_str(), &ctx.facades) {
        return None;
    }
    if is_constant_shaped(r.inner.as_str()) {
        Some((0, d.crate_name.clone()))
    } else if is_variant_shaped(r.inner.as_str()) && crate::resolution::strings_contain(enums, r.outer.as_str()) {
        Some((1, d.crate_name.clone()))
    } else {
        Some((2, d.crate_name.clone()))
    }
}

/// The view of computed routes.
pub open spec fn routes_exec_view(v: Seq<Option<(u8, String)>>) -> Seq<Option<(int, Seq<char>)>> {
    v.map_values(
        |o: Option<(u8, String)>|
            match o {
                Some((c, d)) => Some((c as int, d@)),
                None => None,
            },
    )
}

fn route_all(
    refs: &Vec<AstMethodRef>,
    lookups: &DefLookups,
    enums: &Vec<String>,
    filters: &FiltersConfig,
    crate_dirs: &IndexMap<String, String>,
    ctx: &SiteContext,
) -> (out: Vec<Option<(u8, String)>>)
    ensures
        routes_exec_view(out@) == routes_view(refs@, *lookups, strings_view(enums@), *filters, dir_entries(*crate_dirs), *ctx),
{
    let mut out: Vec<Option<(u8, String)>> = Vec::new();
    let mut i: usize = 0;
    while i < refs.len()
        invariant
            i <= refs@.len(),
            routes_exec_view(out@) == routes_view(
                refs@.take(i as int),
                *lookups,
                strings_view(enums@),
                *filters,
                dir_entries(*crate_dirs),
                *ctx,
            ),
        decreases refs@.len() - i,
    {
        let o = route_ref(&refs[i], lookups, enums, filters, crate_dirs, ctx);
        let ghost before = routes_exec_view(out@);
        out.push(o);
        proof {
            let rv = routes_view(refs@.take(i + 1), *lookups, strings_view(enums@), *filters, dir_entries(*crate_dirs), *ctx);
            assert(refs@.take(i + 1) =~= refs@.take(i as int).push(refs@[i as int]));
            assert(rv =~= before.push(ref_route(refs@[i as int], *lookups, strings_view(enums@), *filters, dir_entries(*crate_dirs), *ctx)));
            assert(routes_exec_view(out@) =~= before.push(routes_exec_view(out@)[i as int]));
            assert(routes_exec_view(out@) =~= rv);
        }
        i = i + 1;
    }
    assert(refs@.take(i as int) =~= refs@);
    out
}

fn ref_key_exec(r: &AstMethodRef, class: u8) -> (k: String)
    ensures
        k@ == (if class == 2 {
            r.inner@
        } else {
            ref_key(*r)
        }),
{
    proof {
        reveal_strlit("::");
    }
    if class == 2 {
        r.inner.clone()
    } else {
        let mut k = r.outer.clone();
        push_str(&mut k, "::");
        push_str(&mut k, r.inner.as_str());
        k
    }
}

fn keys_of_class(refs: &Vec<AstMethodRef>, routes: &Vec<Option<(u8, String)>>, class: u8) -> (r: Vec<String>)
    requires
        routes@.len() == refs@.len(),
    ensures
        strings_view(r@) == class_keys(refs@, routes_exec_view(routes@), class as int),
{
    let ghost rv = routes_exec_view(routes@);
    let mut r: Vec<String> = Vec::new();
    let mut i: usize = 0;
    while i < refs.len()
        invariant
            i <= refs@.len(),
            routes@.len() == refs@.len(),
            rv == routes_exec_view(routes@),
            strings_view(r@) == class_keys(refs@.take(i as int), rv.take(i as int), class as int),
        decreases refs@.len() - i,
    {
        proof {
            assert(refs@.take(i + 1).drop_last() =~= refs@.take(i as int));
            assert(rv.take(i + 1).drop_last() =~= rv.take(i as int));
            assert(refs@.take(i + 1).last() == refs@[i as int]);
            assert(rv.take(i + 1).last() == rv[i as int]);
        }
        if let Some((c, _)) = &routes[i] {
            if *c == class {
                let k = ref_key_exec(&refs[i], class);
                if !crate::resolution::strings_contain(&r, k.as_str()) {
                    let ghost before = strings_view(r@);
                    let ghost kv = k@;
                    r.push(k);
                    assert(strings_view(r@) =~= before.push(kv));
                }
            }
        }
        i = i + 1;
    }
    assert(refs@.take(i as int) =~= refs@);
    assert(rv.take(i as int) =~= rv);
    r
}

/// The view of a member list: each reference with its declaring crate.
pub open spec fn members_exec_view(v: Seq<(AstMethodRef, String)>) -> Seq<(AstMethodRef, Seq<char>)> {
    v.map_values(|m: (AstMethodRef, String)| (m.0, m.1@))
}

fn copy_ref(r: &AstMethodRef) -> (out: AstMethodRef)
    ensures
        out == *r,
{
    AstMethodRef { outer: r.outer.clone(), inner: r.inner.clone(), file: r.file.clone(), qualifier: clone_opt(&r.qualifier) }
}

fn members_of_class(refs: &Vec<AstMethodRef>, routes: &Vec<Option<(u8, String)>>, class: u8, key: &str) -> (r: Vec<
    (AstMethodRef, String),
>)
    requires
        routes@.len() == refs@.len(),
    ensures
        members_exec_view(r@) == class_members(refs@, routes_exec_view(routes@), class as int, key@),
{
    let ghost rv = routes_exec_view(routes@);
    let mut r: Vec<(AstMethodRef, String)> = Vec::new();
    let mut i: usize = 0;
    while i < refs.len()
        invariant
            i <= refs@.len(),
            routes@.len() == refs@.len(),
            rv == routes_exec_view(routes@),
            members_exec_view(r@) == class_members(refs@.take(i as int), rv.take(i as int), class as int, key@),
        decreases refs@.len() - i,
    {
        proof {
            assert(refs@.take(i + 1).drop_last() =~= refs@.take(i as int));
            assert(rv.take(i + 1).drop_last() =~= rv.take(i as int));
            assert(refs@.take(i + 1).last() == refs@[i as int]);
            assert(rv.take(i + 1).last() == rv[i as int]);
        }
        if let Some((c, d)) = &routes[i] {
            if *c == class {
                let k = ref_key_exec(&refs[i], class);
                if str_eq(k.as_str(), key) {
                    let ghost before = members_exec_view(r@);
                    r.push((copy_ref(&refs[i]), d.clone()));
                    assert(members_exec_view(r@) =~= before.push((refs@[i as int], d@)));
                }
            }
        }
        i = i + 1;
    }
    assert(refs@.take(i as int) =~= refs@);
    assert(rv.take(i as int) =~= rv);
    r
}

fn files_of_members(ms: &Vec<(AstMethodRef, String)>) -> (r: Vec<String>)
    ensures
        strings_view(r@) == member_files(members_exec_view(ms@)),
{
    let mut r: Vec<String> = Vec::new();
    let mut i: usize = 0;
    while i < ms.len()
        invariant
            i <= ms@.len(),
            strings_view(r@) == member_files(members_exec_view(ms@)).take(i as int),
        decreases ms@.len() - i,
    {
        let ghost before = strings_view(r@);
        r.push(ms[i].0.file.clone());
        proof {
            let mf = member_files(members_exec_view(ms@));
            assert(mf[i as int] == ms@[i as int].0.file@);
            assert(mf.take(i + 1) =~= mf.take(i as int).push(mf[i as int]));
            assert(strings_view(r@) =~= before.push(ms@[i as int].0.file@));
        }
        i = i + 1;
    }
    assert(member_files(members_exec_view(ms@)).take(i as int) =~= member_files(members_exec_view(ms@)));
    r
}

/// The table after the `assoc_const:<Outer::CONST>` row of `key`: when its
/// outer names a type or trait and the key is neither skipped nor present,
/// a public row from the references' files.
pub open spec fn assoc_step(
    table: Seq<(Seq<char>, MetricView)>,
    key: Seq<char>,
    refs: Seq<AstMethodRef>,
    routes: Seq<Option<(int, Seq<char>)>>,
    l: DefLookups,
    entries: Seq<(Seq<char>, Seq<char>)>,
    skips: Seq<String>,
) -> Seq<(Seq<char>, MetricView)> {
    match type_or_trait(l, outer_of(key)) {
        None => table,
        Some(d) => {
            let k = "assoc_const:"@ + key;
            if matches_any_substring(k, skips) || has_key(table, k) {
                table
            } else {
                table.push((k, usage_row(member_files(class_members(refs, routes, 0, key)), d.crate_name, entries, true)))
            }
        },
    }
}

/// The table after the `type_usage:<Enum::Variant>` rows of `key`: when its
/// outer names a type and the key is not skipped, the references' row is
/// merged into the table, public as the type is.
pub open spec fn variant_step(
    table: Seq<(Seq<char>, MetricView)>,
    key: Seq<char>,
    refs: Seq<AstMethodRef>,
    routes: Seq<Option<(int, Seq<char>)>>,
    l: DefLookups,
    entries: Seq<(Seq<char>, Seq<char>)>,
    skips: Seq<String>,
) -> Seq<(Seq<char>, MetricView)> {
    match first_value(defs_view(l.types@), outer_of(key)) {
        None => table,
        Some(d) => {
            let k = "type_usage:"@ + key;
            if matches_any_substring(k, skips) {
                table
            } else {
                merge_into(
                    table,
                    k,
                    usage_row(
                        member_files(class_members(refs, routes, 1, key)),
                        d.crate_name,
                        entries,
                        starts_with(d.visibility, "pub"@),
                    ),
                )
            }
        },
    }
}

/// The distinct outers of members, in first-seen order.
pub open spec fn member_outers(ms: Seq<(AstMethodRef, Seq<char>)>) -> Seq<Seq<char>>
    decreases ms.len(),
{
    if ms.len() == 0 {
        Seq::empty()
    } else {
        let prev = member_outers(ms.drop_last());
        if prev.contains(ms.last().0.outer@) {
            prev
        } else {
            prev.push(ms.last().0.outer@)
        }
    }
}

/// The distinct declaring crates of members, in first-seen order.
pub open spec fn member_crates(ms: Seq<(AstMethodRef, Seq<char>)>) -> Seq<Seq<char>>
    decreases ms.len(),
{
    if ms.len() == 0 {
        Seq::empty()
    } else {
        let prev = member_crates(ms.drop_last());
        if prev.contains(ms.last().1) {
            prev
        } else {
            prev.push(ms.last().1)
        }
    }
}

/// How many members are declared in crate `c`.
pub open spec fn crate_member_count(ms: Seq<(AstMethodRef, Seq<char>)>, c: Seq<char>) -> nat
    decreases ms.len(),
{
    if ms.len() == 0 {
        0
    } else {
        crate_member_count(ms.drop_last(), c) + if ms.last().1 == c {
            1nat
        } else {
            0nat
        }
    }
}

/// The family's declaring crate among `cs` (in order): the first with the
/// most members, where an empty crate name is always displaced.
pub open spec fn family_crate(ms: Seq<(AstMethodRef, Seq<char>)>, cs: Seq<Seq<char>>) -> (Seq<char>, nat)
    decreases cs.len(),
{
    if cs.len() == 0 {
        (Seq::empty(), 0)
    } else {
        let cur = family_crate(ms, cs.drop_last());
        let v = crate_member_count(ms, cs.last());
        if cur.0.len() == 0 || v > cur.1 {
            (cs.last(), v)
        } else {
            cur
        }
    }
}

/// The table after the `method_ref:_::<inner>` family row: with members on
/// at least `min_outers` distinct outers and a key neither skipped nor
/// present, a public row from the members' files, attributed to the crate
/// declaring most of them.
pub open spec fn family_step(
    table: Seq<(Seq<char>, MetricView)>,
    inner: Seq<char>,
    refs: Seq<AstMethodRef>,
    routes: Seq<Option<(int, Seq<char>)>>,
    entries: Seq<(Seq<char>, Seq<char>)>,
    skips: Seq<String>,
    min_outers: nat,
) -> Seq<(Seq<char>, MetricView)> {
    let ms = class_members(refs, routes, 2, inner);
    let k = "method_ref:_::"@ + inner;
    if member_outers(ms).len() < min_outers || matches_any_substring(k, skips) || has_key(table, k) {
        table
    } else {
        table.push((k, usage_row(member_files(ms), family_crate(ms, member_crates(ms)).0, entries, true)))
    }
}

/// The table after the associated-constant rows of `keys`, in order.
pub open spec fn assoc_fold(
    table: Seq<(Seq<char>, MetricView)>,
    keys: Seq<Seq<char>>,
    refs: Seq<AstMethodRef>,
    routes: Seq<Option<(int, Seq<char>)>>,
    l: DefLookups,
    entries: Seq<(Seq<char>, Seq<char>)>,
    skips: Seq<String>,
) -> Seq<(Seq<char>, MetricView)>
    decreases keys.len(),
{
    if keys.len() == 0 {
        table
    } else {
        assoc_step(assoc_fold(table, keys.drop_last(), refs, routes, l, entries, skips), keys.last(), refs, routes, l, entries, skips)
    }
}

/// The table after the variant-reference merges of `keys`, in order.
pub open spec fn variant_fold(
    table: Seq<(Seq<char>, MetricView)>,
    keys: Seq<Seq<char>>,
    refs: Seq<AstMethodRef>,
    routes: Seq<Option<(int, Seq<char>)>>,
    l: DefLookups,
    entries: Seq<(Seq<char>, Seq<char>)>,
    skips: Seq<String>,
) -> Seq<(Seq<char>, MetricView)>
    decreases keys.len(),
{
    if keys.len() == 0 {
        table
    } else {
        variant_step(variant_fold(table, keys.drop_last(), refs, routes, l, entries, skips), keys.last(), refs, routes, l, entries, skips)
    }
}

/// The table after the method-family rows of `inners`, in order.
pub open spec fn family_fold(
    table: Seq<(Seq<char>, MetricView)>,
    inners: Seq<Seq<char>>,
    refs: Seq<AstMethodRef>,
    routes: Seq<Option<(int, Seq<char>)>>,
    entries: Seq<(Seq<char>, Seq<char>)>,
    skips: Seq<String>,
    min_outers: nat,
) -> Seq<(Seq<char>, MetricView)>
    decreases inners.len(),
{
    if inners.len() == 0 {
        table
    } else {
        family_step(
            family_fold(table, inners.drop_last(), refs, routes, entries, skips, min_outers),
            inners.last(),
            refs,
            routes,
            entries,
            skips,
            min_outers,
        )
    }
}

/// The table after all reference-synthesized rows: associated constants,
/// then variant references, then method families.
pub open spec fn ref_rows_view(
    table: Seq<(Seq<char>, MetricView)>,
    refs: Seq<AstMethodRef>,
    l: DefLookups,
    enums: Seq<Seq<char>>,
    filters: FiltersConfig,
    entries: Seq<(Seq<char>, Seq<char>)>,
    ctx: SiteContext,
    min_outers: nat,
) -> Seq<(Seq<char>, MetricView)> {
    let routes = routes_view(refs, l, enums, filters, entries, ctx);
    let skips = filters.pattern_skip_substrings@;
    let a = assoc_fold(table, class_keys(refs, routes, 0), refs, routes, l, entries, skips);
    let v = variant_fold(a, class_keys(refs, routes, 1), refs, routes, l, entries, skips);
    family_fold(v, class_keys(refs, routes, 2), refs, routes, entries, skips, min_outers)
}

fn outers_of_members(ms: &Vec<(AstMethodRef, String)>) -> (r: usize)
    ensures
        r == member_outers(members_exec_view(ms@)).len(),
{
    let ghost mv = members_exec_view(ms@);
    let mut outs: Vec<String> = Vec::new();
    let mut i: usize = 0;
    while i < ms.len()
        invariant
            i <= ms@.len(),
            mv == members_exec_view(ms@),
            strings_view(outs@) == member_outers(mv.take(i as int)),
            outs@.len() <= i,
        decreases ms@.len() - i,
    {
        proof {
            assert(mv.take(i + 1).drop_last() =~= mv.take(i as int));
            assert(mv.take(i + 1).last() == mv[i as int]);
        }
        if !crate::resolution::strings_contain(&outs, ms[i].0.outer.as_str()) {
            let ghost before = strings_view(outs@);
            outs.push(ms[i].0.outer.clone());
            assert(strings_view(outs@) =~= before.push(mv[i as int].0.outer@));
        }
        i = i + 1;
    }
    assert(mv.take(i as int) =~= mv);
    outs.len()
}

fn crates_of_members(ms: &Vec<(AstMethodRef, String)>) -> (r: Vec<String>)
    ensures
        strings_view(r@) == member_crates(members_exec_view(ms@)),
{
    let ghost mv = members_exec_view(ms@);
    let mut r: Vec<String> = Vec::new();
    let mut i: usize = 0;
    while i < ms.len()
        invariant
            i <= ms@.len(),
            mv == members_exec_view(ms@),
            strings_view(r@) == member_crates(mv.take(i as int)),
        decreases ms@.len() - i,
    {
        proof {
            assert(mv.take(i + 1).drop_last() =~= mv.take(i as int));
            assert(mv.take(i + 1).last() == mv[i as int]);
        }
        if !crate::resolution::strings_contain(&r, ms[i].1.as_str()) {
            let ghost before = strings_view(r@);
            r.push(ms[i].1.clone());
            assert(strings_view(r@) =~= before.push(mv[i as int].1));
        }
        i = i + 1;
    }
    assert(mv.take(i as int) =~= mv);
    r
}

proof fn lemma_crate_member_count_bounded(ms: Seq<(AstMethodRef, Seq<char>)>, c: Seq<char>)
    ensures
        crate_member_count(ms, c) <= ms.len(),
    decreases ms.len(),
{
    if ms.len() > 0 {
        lemma_crate_member_count_bounded(ms.drop_last(), c);
    }
}

fn count_crate_members(ms: &Vec<(AstMethodRef, String)>, c: &str) -> (r: usize)
    ensures
        r == crate_member_count(members_exec_view(ms@), c@),
{
    let ghost mv = members_exec_view(ms@);
    let mut n: usize = 0;
    let mut i: usize = 0;
    while i < ms.len()
        invariant
            i <= ms@.len(),
            mv == members_exec_view(ms@),
            n == crate_member_count(mv.take(i as int), c@),
        decreases ms@.len() - i,
    {
        proof {
            assert(mv.take(i + 1).drop_last() =~= mv.take(i as int));
            assert(mv.take(i + 1).last() == mv[i as int]);
            lemma_crate_member_count_bounded(mv.take(i + 1), c@);
        }
        if str_eq(ms[i].1.as_str(), c) {
            n = n + 1;
        }
        i = i + 1;
    }
    assert(mv.take(i as int) =~= mv);
    n
}

fn choose_family_crate(ms: &Vec<(AstMethodRef, String)>) -> (r: String)
    ensures
        r@ == family_crate(members_exec_view(ms@), member_crates(members_exec_view(ms@))).0,
{
    let ghost mv = members_exec_view(ms@);
    let cs = crates_of_members(ms);
    let ghost cv = strings_view(cs@);
    let mut best = String::new();
    let mut best_n: usize = 0;
    let mut i: usize = 0;
    while i < cs.len()
        invariant
            i <= cs@.len(),
            mv == members_exec_view(ms@),
            cv == strings_view(cs@),
            (best@, best_n as nat) == family_crate(mv, cv.take(i as int)),
        decreases cs@.len() - i,
    {
        proof {
            assert(cv.take(i + 1).drop_last() =~= cv.take(i as int));
            assert(cv.take(i + 1).last() == cs@[i as int]@);
        }
        let v = count_crate_members(ms, cs[i].as_str());
        if best.as_str().is_empty() || v > best_n {
            best = cs[i].clone();
            best_n = v;
        }
        i = i + 1;
    }
    assert(cv.take(i as int) =~= cv);
    best
}

/// Adds the rows reached through `Outer::inner` references: each reference
/// whose outer names a type or trait and whose site credits its declaring
/// crate is an associated-constant access (constant-shaped inner), a
/// variant constructor reference (variant-shaped inner on an enum), or a
/// method-family member. Associated constants get public
/// `assoc_const:Outer::CONST` rows; variant references merge into
/// `type_usage:Enum::Variant` rows; a method name used on at least
/// `min_outers` distinct outers gets a public `method_ref:_::name` row
/// attributed to the crate declaring most of its members.
pub fn synthesize_ref_rows(
    table: &mut Vec<(String, PatternMetric)>,
    refs: &Vec<AstMethodRef>,
    lookups: &DefLookups,
    enums: &Vec<String>,
    ctx: &SiteContext,
    crate_dirs: &IndexMap<String, String>,
    filters: &FiltersConfig,
    min_outers: usize,
)
    ensures
        metric_rows_view(final(table)@) == ref_rows_view(
            metric_rows_view(old(table)@),
            refs@,
            *lookups,
            strings_view(enums@),
            *filters,
            dir_entries(*crate_dirs),
            *ctx,
            min_outers as nat,
        ),
{
    proof {
        reveal_strlit("pub");
        reveal_strlit("assoc_const:");
        reveal_strlit("type_usage:");
        reveal_strlit("method_ref:_::");
    }
    let routes = route_all(refs, lookups, enums, filters, crate_dirs, ctx);
    let ghost rv = routes_exec_view(routes@);
    let ghost es = dir_entries(*crate_dirs);
    let ghost skips = filters.pattern_skip_substrings@;
    let ghost start = metric_rows_view(table@);
    assert(routes@.len() == refs@.len()) by {
        assert(rv.len() == routes_view(refs@, *lookups, strings_view(enums@), *filters, es, *ctx).len());
    }
    let assoc_keys = keys_of_class(refs, &routes, 0);
    let ghost ak = strings_view(assoc_keys@);
    let mut j: usize = 0;
    while j < assoc_keys.len()
        invariant
            j <= assoc_keys@.len(),
            routes@.len() == refs@.len(),
            rv == routes_exec_view(routes@),
            ak == strings_view(assoc_keys@),
            es == dir_entries(*crate_dirs),
            skips == filters.pattern_skip_substrings@,
            metric_rows_view(table@) == assoc_fold(start, ak.take(j as int), refs@, rv, *lookups, es, skips),
        decreases assoc_keys@.len() - j,
    {
        proof {
            assert(ak.take(j + 1).drop_last() =~= ak.take(j as int));
            assert(ak.take(j + 1).last() == assoc_keys@[j as int]@);
        }
        let key = assoc_keys[j].as_str();
        let outer = crate::metrics::outer_segment(key);
        if let Some(d) = find_type_or_trait(lookups, outer.as_str()) {
            let mut k = "assoc_const:".to_string();
            push_str(&mut k, key);
            if !should_skip_pattern(k.as_str(), filters) && !table_has(table, k.as_str()) {
                let ms = members_of_class(refs, &routes, 0, key);
                let files = files_of_members(&ms);
                let row = usage_row_exec(&files, d.crate_name.as_str(), crate_dirs, true);
                let ghost before = metric_rows_view(table@);
                let ghost kv = k@;
                let ghost row_v = row@;
                table.push((k, row));
                assert(metric_rows_view(table@) =~= before.push((kv, row_v)));
            }
        }
        j = j + 1;
    }
    assert(ak.take(j as int) =~= ak);
    let ghost after_assoc = metric_rows_view(table@);
    let variant_keys = keys_of_class(refs, &routes, 1);
    let ghost vk = strings_view(variant_keys@);
    let mut j: usize = 0;
    while j < variant_keys.len()
        invariant
            j <= variant_keys@.len(),
            routes@.len() == refs@.len(),
            rv == routes_exec_view(routes@),
            vk == strings_view(variant_keys@),
            es == dir_entries(*crate_dirs),
            skips == filters.pattern_skip_substrings@,
            metric_rows_view(table@) == variant_fold(after_assoc, vk.take(j as int), refs@, rv, *lookups, es, skips),
        decreases variant_keys@.len() - j,
    {
        proof {
            assert(vk.take(j + 1).drop_last() =~= vk.take(j as int));
            assert(vk.take(j + 1).last() == variant_keys@[j as int]@);
        }
        let key = variant_keys[j].as_str();
        let outer = crate::metrics::outer_segment(key);
        if let Some(d) = find_def(&lookups.types, outer.as_str()) {
            let mut k = "type_usage:".to_string();
            push_str(&mut k, key);
            if !should_skip_pattern(k.as_str(), filters) {
                let ms = members_of_class(refs, &routes, 1, key);
                let files = files_of_members(&ms);
                let row = usage_row_exec(&files, d.crate_name.as_str(), crate_dirs, str_starts_with(d.visibility.as_str(), "pub"));
                crate::grouping::merge_metric(table, k, row);
            }
        }
        j = j + 1;
    }
    assert(vk.take(j as int) =~= vk);
    let ghost after_variants = metric_rows_view(table@);
    let inners = keys_of_class(refs, &routes, 2);
    let ghost iv = strings_view(inners@);
    let mut j: usize = 0;
    while j < inners.len()
        invariant
            j <= inners@.len(),
            routes@.len() == refs@.len(),
            rv == routes_exec_view(routes@),
            iv == strings_view(inners@),
            es == dir_entries(*crate_dirs),
            skips == filters.pattern_skip_substrings@,
            metric_rows_view(table@) == family_fold(after_variants, iv.take(j as int), refs@, rv, es, skips, min_outers as nat),
        decreases inners@.len() - j,
    {
        proof {
            assert(iv.take(j + 1).drop_last() =~= iv.take(j as int));
            assert(iv.take(j + 1).last() == inners@[j as int]@);
        }
        let inner = inners[j].as_str();
        let ms = members_of_class(refs, &routes, 2, inner);
        let n_outers = outers_of_members(&ms);
        let mut k = "method_ref:_::".to_string();
        push_str(&mut k, inner);
        if n_outers >= min_outers && !should_skip_pattern(k.as_str(), filters) && !table_has(table, k.as_str()) {
            let defining = choose_family_crate(&ms);
            let files = files_of_members(&ms);
            let row = usage_row_exec(&files, defining.as_str(), crate_dirs, true);
            let ghost before = metric_rows_view(table@);
            let ghost kv = k@;
            let ghost row_v = row@;
            table.push((k, row));
            assert(metric_rows_view(table@) =~= before.push((kv, row_v)));
        }
        j = j + 1;
    }
    assert(iv.take(j as int) =~= iv);
}

/// A function declaration fact: name, declaring crate, file, visibility and
/// the brace depth it is declared at (zero for free functions).
#[derive(Debug, Clone)]
pub struct FnDecl {
    pub name: Option<String>,
    pub crate_name: Option<String>,
    pub file: Option<String>,
    pub visibility: Option<String>,
    pub brace_depth: Option<u64>,
}

/// The visibility of the first free function `n` declared in a source file
/// of crate `c`.
pub open spec fn fn_decl_vis(fns: Seq<FnDecl>, n: Seq<char>, c: Seq<char>) -> Option<Seq<char>>
    decreases fns.len(),
{
    if fns.len() == 0 {
        None
    } else {
        match fn_decl_vis(fns.drop_last(), n, c) {
            Some(v) => Some(v),
            None => {
                let f = fns.last();
                if f.brace_depth == Some(0u64) && src_file_view(text_or_empty(f.file)) && opt_view(f.name) == Some(n)
                    && opt_view(f.crate_name) == Some(c) {
                    Some(text_or_empty(f.visibility))
                } else {
                    None
                }
            },
        }
    }
}

/// Whether crate `c` declares a public free function `n`.
pub open spec fn declares_pub_fn(fns: Seq<FnDecl>, n: Seq<char>, c: Seq<char>) -> bool {
    match fn_decl_vis(fns, n, c) {
        Some(v) => starts_with(v, "pub"@),
        None => false,
    }
}

/// The crates of the declarations in `part` that declare (in `fns`) a
/// public free function `n`, each once, in order.
pub open spec fn pub_crates_in(fns: Seq<FnDecl>, part: Seq<FnDecl>, n: Seq<char>) -> Seq<Seq<char>>
    decreases part.len(),
{
    if part.len() == 0 {
        Seq::empty()
    } else {
        let prev = pub_crates_in(fns, part.drop_last(), n);
        match part.last().crate_name {
            Some(c) => if declares_pub_fn(fns, n, c@) && !prev.contains(c@) {
                prev.push(c@)
            } else {
                prev
            },
            None => prev,
        }
    }
}

/// The crates declaring a public free function `n`, each once, in order.
pub open spec fn pub_fn_crates(fns: Seq<FnDecl>, n: Seq<char>) -> Seq<Seq<char>> {
    pub_crates_in(fns, fns, n)
}

/// The crates among `cs` whose namespace `via` re-exports.
pub open spec fn ns_reexported(cs: Seq<Seq<char>>, via: Seq<char>, ctx: SiteContext) -> Seq<Seq<char>>
    decreases cs.len(),
{
    if cs.len() == 0 {
        Seq::empty()
    } else {
        let prev = ns_reexported(cs.drop_last(), via, ctx);
        if member_of(ctx.facades.ns_closure@, via, cs.last()) {
            prev.push(cs.last())
        } else {
            prev
        }
    }
}

/// The crate a call of `n` bound through crate `c` credits: `c` when it
/// declares `n` publicly; else the one public declarer when `c` re-exports
/// `n` by name; else the one public declarer whose namespace `c`
/// re-exports.
pub open spec fn fn_target(fns: Seq<FnDecl>, n: Seq<char>, c: Seq<char>, ctx: SiteContext) -> Option<Seq<char>> {
    if declares_pub_fn(fns, n, c) {
        Some(c)
    } else {
        let pubs = pub_fn_crates(fns, n);
        if member_of(ctx.facades.leaf_reexports@, c, n) && pubs.len() == 1 {
            Some(pubs[0])
        } else {
            let ns = ns_reexported(pubs, c, ctx);
            if ns.len() == 1 {
                Some(ns[0])
            } else {
                None
            }
        }
    }
}

/// The crate a call site resolves its head through: with a qualifier, the
/// crate that root binds; else the bare name's origin (a workspace crate,
/// or the using crate for self-crate and unresolved names).
pub open spec fn call_candidate(call: AstFnCall, using: Seq<char>, ctx: SiteContext) -> Option<Seq<char>> {
    match call.qualifier {
        Some(q) => resolve_root_view(ctx.vocab@, using, q@),
        None => match ident_origin(
            call.file@,
            call.name@,
            using,
            ctx.import_maps@,
            ctx.vocab@,
            ctx.local_decl_crates@,
        ) {
            OriginView::Workspace(c) => Some(c),
            OriginView::SelfCrate => Some(using),
            OriginView::Unresolved => Some(using),
            _ => None,
        },
    }
}

/// The crate a call credits, if any: calls with a name, in a file some
/// crate owns, whose head resolves to a crate declaring (or re-exporting) a
/// public free function of that name.
pub open spec fn call_target(call: AstFnCall, fns: Seq<FnDecl>, entries: Seq<(Seq<char>, Seq<char>)>, ctx: SiteContext) -> Option<
    Seq<char>,
> {
    let using = crate_for_file(call.file@, entries);
    if call.name@.len() == 0 || using.len() == 0 {
        None
    } else {
        match call_candidate(call, using, ctx) {
            Some(c) => fn_target(fns, call.name@, c, ctx),
            None => None,
        }
    }
}

/// The targets of all calls, in order.
pub open spec fn call_targets(
    calls: Seq<AstFnCall>,
    fns: Seq<FnDecl>,
    entries: Seq<(Seq<char>, Seq<char>)>,
    ctx: SiteContext,
) -> Seq<Option<Seq<char>>> {
    calls.map_values(|c: AstFnCall| call_target(c, fns, entries, ctx))
}

/// The names of the calls with a target, each once, in first-seen order.
pub open spec fn called_names(calls: Seq<AstFnCall>, ts: Seq<Option<Seq<char>>>) -> Seq<Seq<char>>
    decreases calls.len(),
{
    if calls.len() == 0 || ts.len() != calls.len() {
        Seq::empty()
    } else {
        let prev = called_names(calls.drop_last(), ts.drop_last());
        if ts.last() is Some && !prev.contains(calls.last().name@) {
            prev.push(calls.last().name@)
        } else {
            prev
        }
    }
}

/// The target crates of the calls of `n`, each once, in first-seen order.
pub open spec fn called_crates(calls: Seq<AstFnCall>, ts: Seq<Option<Seq<char>>>, n: Seq<char>) -> Seq<Seq<char>>
    decreases calls.len(),
{
    if calls.len() == 0 || ts.len() != calls.len() {
        Seq::empty()
    } else {
        let prev = called_crates(calls.drop_last(), ts.drop_last(), n);
        match ts.last() {
            Some(c) => if calls.last().name@ == n && !prev.contains(c) {
                prev.push(c)
            } else {
                prev
            },
            None => prev,
        }
    }
}

/// The files of the calls of `n` targeting crate `c`, in order.
pub open spec fn call_files(calls: Seq<AstFnCall>, ts: Seq<Option<Seq<char>>>, n: Seq<char>, c: Seq<char>) -> Seq<Seq<char>>
    decreases calls.len(),
{
    if calls.len() == 0 || ts.len() != calls.len() {
        Seq::empty()
    } else {
        let prev = call_files(calls.drop_last(), ts.drop_last(), n, c);
        if calls.last().name@ == n && ts.last() == Some(c) {
            prev.push(calls.last().file@)
        } else {
            prev
        }
    }
}

/// The crate with the most calls of `n` among `cs` (the first on ties).
pub open spec fn busiest_crate(
    calls: Seq<AstFnCall>,
    ts: Seq<Option<Seq<char>>>,
    n: Seq<char>,
    cs: Seq<Seq<char>>,
) -> Seq<char>
    decreases cs.len(),
{
    if cs.len() == 0 {
        Seq::empty()
    } else if cs.len() == 1 {
        cs[0]
    } else {
        let b = busiest_crate(calls, ts, n, cs.drop_last());
        if call_files(calls, ts, n, cs.last()).len() > call_files(calls, ts, n, b).len() {
            cs.last()
        } else {
            b
        }
    }
}

/// The table after the `free_fn:<n>` row: unless skipped or present, a
/// public row from the calls' files, attributed to the target crate with
/// the most calls.
pub open spec fn free_fn_step(
    table: Seq<(Seq<char>, MetricView)>,
    n: Seq<char>,
    calls: Seq<AstFnCall>,
    ts: Seq<Option<Seq<char>>>,
    entries: Seq<(Seq<char>, Seq<char>)>,
    skips: Seq<String>,
) -> Seq<(Seq<char>, MetricView)> {
    let k = "free_fn:"@ + n;
    if matches_any_substring(k, skips) || has_key(table, k) {
        table
    } else {
        let best = busiest_crate(calls, ts, n, called_crates(calls, ts, n));
        table.push((k, usage_row(call_files(calls, ts, n, best), best, entries, true)))
    }
}

/// The table after the free-function rows of `ns`, in order.
pub open spec fn free_fn_fold(
    table: Seq<(Seq<char>, MetricView)>,
    ns: Seq<Seq<char>>,
    calls: Seq<AstFnCall>,
    ts: Seq<Option<Seq<char>>>,
    entries: Seq<(Seq<char>, Seq<char>)>,
    skips: Seq<String>,
) -> Seq<(Seq<char>, MetricView)>
    decreases ns.len(),
{
    if ns.len() == 0 {
        table
    } else {
        free_fn_step(free_fn_fold(table, ns.drop_last(), calls, ts, entries, skips), ns.last(), calls, ts, entries, skips)
    }
}

fn fn_decl_vis_exec(fns: &Vec<FnDecl>, n: &str, c: &str) -> (r: Option<String>)
    ensures
        opt_view(r) == fn_decl_vis(fns@, n@, c@),
{
    let mut i: usize = 0;
    while i < fns.len()
        invariant
            i <= fns@.len(),
            fn_decl_vis(fns@.take(i as int), n@, c@) is None,
        decreases fns@.len() - i,
    {
        proof {
            assert(fns@.take(i + 1).drop_last() =~= fns@.take(i as int));
            assert(fns@.take(i + 1).last() == fns@[i as int]);
        }
        let f = &fns[i];
        let file = owned_or_empty(&f.file);
        let depth_zero = match f.brace_depth {
            Some(d) => d == 0,
            None => false,
        };
        if depth_zero && is_src_file(file.as_str()) && opt_is(&f.name, n) && opt_is(&f.crate_name, c) {
            proof {
                lemma_fn_decl_vis_prefix(fns@, i + 1, n@, c@);
            }
            return Some(owned_or_empty(&f.visibility));
        }
        i = i + 1;
    }
    assert(fns@.take(i as int) =~= fns@);
    None
}

proof fn lemma_fn_decl_vis_prefix(fns: Seq<FnDecl>, k: int, n: Seq<char>, c: Seq<char>)
    requires
        0 <= k <= fns.len(),
        fn_decl_vis(fns.take(k), n, c) is Some,
    ensures
        fn_decl_vis(fns, n, c) == fn_decl_vis(fns.take(k), n, c),
    decreases fns.len(),
{
    if k == fns.len() {
        assert(fns.take(k) =~= fns);
    } else {
        assert(fns.drop_last().take(k) =~= fns.take(k));
        lemma_fn_decl_vis_prefix(fns.drop_last(), k, n, c);
    }
}

fn declares_pub_fn_exec(fns: &Vec<FnDecl>, n: &str, c: &str) -> (r: bool)
    ensures
        r == declares_pub_fn(fns@, n@, c@),
{
    proof {
        reveal_strlit("pub");
    }
    match fn_decl_vis_exec(fns, n, c) {
        Some(v) => str_starts_with(v.as_str(), "pub"),
        None => false,
    }
}

fn pub_fn_crates_exec(fns: &Vec<FnDecl>, n: &str) -> (r: Vec<String>)
    ensures
        strings_view(r@) == pub_fn_crates(fns@, n@),
{
    let mut r: Vec<String> = Vec::new();
    let mut i: usize = 0;
    while i < fns.len()
        invariant
            i <= fns@.len(),
            strings_view(r@) == pub_crates_in(fns@, fns@.take(i as int), n@),
        decreases fns@.len() - i,
    {
        proof {
            assert(fns@.take(i + 1).drop_last() =~= fns@.take(i as int));
            assert(fns@.take(i + 1).last() == fns@[i as int]);
        }
        if let Some(c) = &fns[i].crate_name {
            if declares_pub_fn_exec(fns, n, c.as_str()) && !crate::resolution::strings_contain(&r, c.as_str()) {
                let ghost before = strings_view(r@);
                r.push(c.clone());
                assert(strings_view(r@) =~= before.push(c@));
            }
        }
        i = i + 1;
    }
    assert(fns@.take(i as int) =~= fns@);
    r
}

fn ns_reexported_exec(cs: &Vec<String>, via: &str, ctx: &SiteContext) -> (r: Vec<String>)
    ensures
        strings_view(r@) == ns_reexported(strings_view(cs@), via@, *ctx),
{
    let ghost cv = strings_view(cs@);
    let mut r: Vec<String> = Vec::new();
    let mut i: usize = 0;
    while i < cs.len()
        invariant
            i <= cs@.len(),
            cv == strings_view(cs@),
            strings_view(r@) == ns_reexported(cv.take(i as int), via@, *ctx),
        decreases cs@.len() - i,
    {
        proof {
            assert(cv.take(i + 1).drop_last() =~= cv.take(i as int));
            assert(cv.take(i + 1).last() == cs@[i as int]@);
        }
        if ctx.facades.ns_closure.contains(via, cs[i].as_str()) {
            let ghost before = strings_view(r@);
            r.push(cs[i].clone());
            assert(strings_view(r@) =~= before.push(cs@[i as int]@));
        }
        i = i + 1;
    }
    assert(cv.take(i as int) =~= cv);
    r
}

fn fn_target_exec(fns: &Vec<FnDecl>, n: &str, c: &str, ctx: &SiteContext) -> (r: Option<String>)
    ensures
        opt_view(r) == fn_target(fns@, n@, c@, *ctx),
{
    if declares_pub_fn_exec(fns, n, c) {
        return Some(c.to_string());
    }
    let pubs = pub_fn_crates_exec(fns, n);
    if ctx.facades.leaf_reexports.contains(c, n) && pubs.len() == 1 {
        return Some(pubs[0].clone());
    }
    let ns = ns_reexported_exec(&pubs, c, ctx);
    if ns.len() == 1 {
        Some(ns[0].clone())
    } else {
        None
    }
}

fn call_target_exec(
    call: &AstFnCall,
    fns: &Vec<FnDecl>,
    crate_dirs: &IndexMap<String, String>,
    ctx: &SiteContext,
) -> (r: Option<String>)
    ensures
        opt_view(r) == call_target(*call, fns@, dir_entries(*crate_dirs), *ctx),
{
    let using = resolve_crate_for_file(call.file.as_str(), crate_dirs);
    if call.name.as_str().is_empty() || using.as_str().is_empty() {
        return None;
    }
    let candidate: Option<String> = match &call.qualifier {
        Some(q) => match ctx.vocab.resolve_root(using.as_str(), q.as_str()) {
            Some(c) => Some(c.clone()),
            None => None,
        },
        None => match resolve_ident_origin(
            call.file.as_str(),
            call.name.as_str(),
            using.as_str(),
            &ctx.import_maps,
            &ctx.vocab,
            &ctx.local_decl_crates,
        ) {
            IdentOrigin::Workspace(c) => Some(c),
            IdentOrigin::SelfCrate => Some(using.clone()),
            IdentOrigin::Unresolved => Some(using.clone()),
            _ => None,
        },
    };
    match candidate {
        Some(c) => fn_target_exec(fns, call.name.as_str(), c.as_str(), ctx),
        None => None,
    }
}

/// The view of optional strings.
pub open spec fn opts_view(v: Seq<Option<String>>) -> Seq<Option<Seq<char>>> {
    v.map_values(|o: Option<String>| opt_view(o))
}

fn call_targets_exec(
    calls: &Vec<AstFnCall>,
    fns: &Vec<FnDecl>,
    crate_dirs: &IndexMap<String, String>,
    ctx: &SiteContext,
) -> (r: Vec<Option<String>>)
    ensures
        opts_view(r@) == call_targets(calls@, fns@, dir_entries(*crate_dirs), *ctx),
{
    let mut r: Vec<Option<String>> = Vec::new();
    let mut i: usize = 0;
    while i < calls.len()
        invariant
            i <= calls@.len(),
            opts_view(r@) == call_targets(calls@.take(i as int), fns@, dir_entries(*crate_dirs), *ctx),
        decreases calls@.len() - i,
    {
        let t = call_target_exec(&calls[i], fns, crate_dirs, ctx);
        let ghost before = opts_view(r@);
        r.push(t);
        proof {
            let ct = call_targets(calls@.take(i + 1), fns@, dir_entries(*crate_dirs), *ctx);
            assert(calls@.take(i + 1) =~= calls@.take(i as int).push(calls@[i as int]));
            assert(ct =~= before.push(call_target(calls@[i as int], fns@, dir_entries(*crate_dirs), *ctx)));
            assert(opts_view(r@) =~= before.push(opts_view(r@)[i as int]));
        }
        i = i + 1;
    }
    assert(calls@.take(i as int) =~= calls@);
    r
}

fn called_names_exec(calls: &Vec<AstFnCall>, ts: &Vec<Option<String>>) -> (r: Vec<String>)
    requires
        ts@.len() == calls@.len(),
    ensures
        strings_view(r@) == called_names(calls@, opts_view(ts@)),
{
    let ghost tv = opts_view(ts@);
    let mut r: Vec<String> = Vec::new();
    let mut i: usize = 0;
    while i < calls.len()
        invariant
            i <= calls@.len(),
            ts@.len() == calls@.len(),
            tv == opts_view(ts@),
            strings_view(r@) == called_names(calls@.take(i as int), tv.take(i as int)),
        decreases calls@.len() - i,
    {
        proof {
            assert(calls@.take(i + 1).drop_last() =~= calls@.take(i as int));
            assert(tv.take(i + 1).drop_last() =~= tv.take(i as int));
            assert(calls@.take(i + 1).last() == calls@[i as int]);
            assert(tv.take(i + 1).last() == tv[i as int]);
        }
        if ts[i].is_some() && !crate::resolution::strings_contain(&r, calls[i].name.as_str()) {
            let ghost before = strings_view(r@);
            r.push(calls[i].name.clone());
            assert(strings_view(r@) =~= before.push(calls@[i as int].name@));
        }
        i = i + 1;
    }
    assert(calls@.take(i as int) =~= calls@);
    assert(tv.take(i as int) =~= tv);
    r
}

fn called_crates_exec(calls: &Vec<AstFnCall>, ts: &Vec<Option<String>>, n: &str) -> (r: Vec<String>)
    requires
        ts@.len() == calls@.len(),
    ensures
        strings_view(r@) == called_crates(calls@, opts_view(ts@), n@),
{
    let ghost tv = opts_view(ts@);
    let mut r: Vec<String> = Vec::new();
    let mut i: usize = 0;
    while i < calls.len()
        invariant
            i <= calls@.len(),
            ts@.len() == calls@.len(),
            tv == opts_view(ts@),
            strings_view(r@) == called_crates(calls@.take(i as int), tv.take(i as int), n@),
        decreases calls@.len() - i,
    {
        proof {
            assert(calls@.take(i + 1).drop_last() =~= calls@.take(i as int));
            assert(tv.take(i + 1).drop_last() =~= tv.take(i as int));
            assert(calls@.take(i + 1).last() == calls@[i as int]);
            assert(tv.take(i + 1).last() == tv[i as int]);
        }
        if let Some(c) = &ts[i] {
            if str_eq(calls[i].name.as_str(), n) && !crate::resolution::strings_contain(&r, c.as_str()) {
                let ghost before = strings_view(r@);
                r.push(c.clone());
                assert(strings_view(r@) =~= before.push(c@));
            }
        }
        i = i + 1;
    }
    assert(calls@.take(i as int) =~= calls@);
    assert(tv.take(i as int) =~= tv);
    r
}

fn call_files_exec(calls: &Vec<AstFnCall>, ts: &Vec<Option<String>>, n: &str, c: &str) -> (r: Vec<String>)
    requires
        ts@.len() == calls@.len(),
    ensures
        strings_view(r@) == call_files(calls@, opts_view(ts@), n@, c@),
{
    let ghost tv = opts_view(ts@);
    let mut r: Vec<String> = Vec::new();
    let mut i: usize = 0;
    while i < calls.len()
        invariant
            i <= calls@.len(),
            ts@.len() == calls@.len(),
            tv == opts_view(ts@),
            strings_view(r@) == call_files(calls@.take(i as int), tv.take(i as int), n@, c@),
        decreases calls@.len() - i,
    {
        proof {
            assert(calls@.take(i + 1).drop_last() =~= calls@.take(i as int));
            assert(tv.take(i + 1).drop_last() =~= tv.take(i as int));
            assert(calls@.take(i + 1).last() == calls@[i as int]);
            assert(tv.take(i + 1).last() == tv[i as int]);
        }
        let hit = match &ts[i] {
            Some(t) => str_eq(t.as_str(), c),
            None => false,
        };
        if str_eq(calls[i].name.as_str(), n) && hit {
            let ghost before = strings_view(r@);
            r.push(calls[i].file.clone());
            assert(strings_view(r@) =~= before.push(calls@[i as int].file@));
        }
        i = i + 1;
    }
    assert(calls@.take(i as int) =~= calls@);
    assert(tv.take(i as int) =~= tv);
    r
}

fn busiest_exec(calls: &Vec<AstFnCall>, ts: &Vec<Option<String>>, n: &str, cs: &Vec<String>) -> (r: String)
    requires
        ts@.len() == calls@.len(),
        cs@.len() > 0,
    ensures
        r@ == busiest_crate(calls@, opts_view(ts@), n@, strings_view(cs@)),
{
    let ghost cv = strings_view(cs@);
    let ghost tv = opts_view(ts@);
    let mut best = cs[0].clone();
    let mut best_n = call_files_exec(calls, ts, n, cs[0].as_str()).len();
    let mut i: usize = 1;
    while i < cs.len()
        invariant
            1 <= i <= cs@.len(),
            ts@.len() == calls@.len(),
            cv == strings_view(cs@),
            tv == opts_view(ts@),
            best@ == busiest_crate(calls@, tv, n@, cv.take(i as int)),
            best_n == call_files(calls@, tv, n@, best@).len(),
        decreases cs@.len() - i,
    {
        proof {
            assert(cv.take(i + 1).drop_last() =~= cv.take(i as int));
            assert(cv.take(i + 1).last() == cs@[i as int]@);
        }
        let v = call_files_exec(calls, ts, n, cs[i].as_str()).len();
        if v > best_n {
            best = cs[i].clone();
            best_n = v;
        }
        i = i + 1;
    }
    assert(cv.take(i as int) =~= cv);
    best
}

proof fn lemma_called_name_has_crates(calls: Seq<AstFnCall>, ts: Seq<Option<Seq<char>>>, n: Seq<char>)
    requires
        ts.len() == calls.len(),
        called_names(calls, ts).contains(n),
    ensures
        called_crates(calls, ts, n).len() > 0,
    decreases calls.len(),
{
    let prev = called_names(calls.drop_last(), ts.drop_last());
    if prev.contains(n) {
        lemma_called_name_has_crates(calls.drop_last(), ts.drop_last(), n);
    } else {
        assert(called_names(calls, ts).last() == n || called_names(calls, ts) == prev);
    }
}

/// The table after the free-function rows of the calls' names.
pub open spec fn free_fn_rows_view(
    table: Seq<(Seq<char>, MetricView)>,
    calls: Seq<AstFnCall>,
    fns: Seq<FnDecl>,
    entries: Seq<(Seq<char>, Seq<char>)>,
    ctx: SiteContext,
    skips: Seq<String>,
) -> Seq<(Seq<char>, MetricView)> {
    let ts = call_targets(calls, fns, entries, ctx);
    free_fn_fold(table, called_names(calls, ts), calls, ts, entries, skips)
}

/// Adds the `free_fn:<name>` rows: each call head (in a file some crate
/// owns) resolves through its qualifier's crate, or through the bare name's
/// origin (the using crate for self-crate and unresolved names); it credits
/// that crate when it declares the name as a public free function in a
/// source file, else the one public declarer it re-exports by name or by
/// namespace. Every called name (first-seen order) not skipped or present
/// gets a public row from its calls' files, attributed to the credited
/// crate with the most calls (the first on ties).
pub fn synthesize_free_fns(
    table: &mut Vec<(String, PatternMetric)>,
    calls: &Vec<AstFnCall>,
    fns: &Vec<FnDecl>,
    ctx: &SiteContext,
    crate_dirs: &IndexMap<String, String>,
    filters: &FiltersConfig,
)
    ensures
        metric_rows_view(final(table)@) == free_fn_rows_view(
            metric_rows_view(old(table)@),
            calls@,
            fns@,
            dir_entries(*crate_dirs),
            *ctx,
            filters.pattern_skip_substrings@,
        ),
{
    proof {
        reveal_strlit("free_fn:");
    }
    let ts = call_targets_exec(calls, fns, crate_dirs, ctx);
    let ghost tv = opts_view(ts@);
    assert(ts@.len() == calls@.len()) by {
        assert(tv.len() == call_targets(calls@, fns@, dir_entries(*crate_dirs), *ctx).len());
    }
    let names = called_names_exec(calls, &ts);
    let ghost nv = strings_view(names@);
    let ghost start = metric_rows_view(table@);
    let ghost es = dir_entries(*crate_dirs);
    let ghost skips = filters.pattern_skip_substrings@;
    let mut j: usize = 0;
    while j < names.len()
        invariant
            j <= names@.len(),
            ts@.len() == calls@.len(),
            tv == opts_view(ts@),
            tv == call_targets(calls@, fns@, es, *ctx),
            nv == strings_view(names@),
            nv == called_names(calls@, tv),
            es == dir_entries(*crate_dirs),
            skips == filters.pattern_skip_substrings@,
            metric_rows_view(table@) == free_fn_fold(start, nv.take(j as int), calls@, tv, es, skips),
        decreases names@.len() - j,
    {
        proof {
            assert(nv.take(j + 1).drop_last() =~= nv.take(j as int));
            assert(nv.take(j + 1).last() == names@[j as int]@);
        }
        let n = names[j].as_str();
        let mut k = "free_fn:".to_string();
        push_str(&mut k, n);
        if !should_skip_pattern(k.as_str(), filters) && !table_has(table, k.as_str()) {
            let cs = called_crates_exec(calls, &ts, n);
            proof {
                assert(nv[j as int] == n@);
                assert(called_names(calls@, tv).contains(n@));
                lemma_called_name_has_crates(calls@, tv, n@);
            }
            let best = busiest_exec(calls, &ts, n, &cs);
            let files = call_files_exec(calls, &ts, n, best.as_str());
            let row = usage_row_exec(&files, best.as_str(), crate_dirs, true);
            let ghost before = metric_rows_view(table@);
            let ghost kv = k@;
            let ghost row_v = row@;
            table.push((k, row));
            assert(metric_rows_view(table@) =~= before.push((kv, row_v)));
        }
        j = j + 1;
    }
    assert(nv.take(j as int) =~= nv);
}

} // verus!
