use indexmap::IndexMap;
use know_rust::config::{ClassifierConfig, FiltersConfig};
use know_rust::fingerprint::{CrateInfo, PatternMetric};
use know_rust::grouping::{classify_sub_forms, merge_metric, translate_to_group_keys};
use know_rust::metrics::{
    DefLookups, DefSource, ImplSite, ItemDecl, KindSources, MacroDecl, PatternFact, SiteContext, UseFact,
    build_def_lookups, build_site_context, compute_example_counts, gate_example_usages, pattern_def,
};
use know_rust::pattern_metrics::compute_pattern_metrics;
use know_rust::picks::SubForm;
use know_rust::synthesis::{AstFnCall, AstIdentUsage, AstMethodRef, AstUsages, FnDecl, enum_type_names};

fn classifier(min_total: usize, threshold: usize) -> ClassifierConfig {
    ClassifierConfig { foundational_min_total: min_total, lifecycle_impl_threshold: threshold }
}

fn s(x: &str) -> Option<String> {
    Some(x.to_string())
}

fn decl(name: &str, krate: &str, vis: &str, kind: &str) -> ItemDecl {
    ItemDecl { name: s(name), crate_name: s(krate), visibility: s(vis), kind: s(kind) }
}

fn fact() -> PatternFact {
    PatternFact {
        trait_name: None,
        name: None,
        kind: None,
        cfg_gated: false,
        crate_name: None,
        file: None,
        qualifier: None,
    }
}

fn use_fact(file: &str, path: &str, krate: &str) -> UseFact {
    UseFact { file: s(file), path: s(path), crate_name: s(krate), reexport: false }
}

fn crates() -> IndexMap<String, CrateInfo> {
    let mut m = IndexMap::new();
    m.insert("engine".to_string(), CrateInfo { dir: "engine".to_string(), has_lib: true, ..CrateInfo::default() });
    m.insert(
        "app".to_string(),
        CrateInfo { dir: "app".to_string(), has_bin: true, deps: vec!["engine".to_string()], ..CrateInfo::default() },
    );
    m
}

fn dirs() -> IndexMap<String, String> {
    let mut m = IndexMap::new();
    m.insert("engine".to_string(), "engine".to_string());
    m.insert("app".to_string(), "app".to_string());
    m
}

fn filters(skips: &[&str]) -> FiltersConfig {
    FiltersConfig {
        method_ref_outer_skip: vec![],
        method_ref_inner_skip: vec![],
        excluded_dir_segments: vec![],
        pattern_skip_substrings: skips.iter().map(|x| x.to_string()).collect(),
    }
}

struct World {
    types: Vec<ItemDecl>,
    traits: Vec<ItemDecl>,
    lookups: DefLookups,
    ctx: SiteContext,
    src: KindSources,
}

fn world() -> World {
    let types = vec![decl("Widget", "engine", "pub", "struct"), decl("Color", "engine", "pub", "enum")];
    let traits = vec![decl("Render", "engine", "pub", "trait")];
    let mods: Vec<ItemDecl> = vec![];
    let macro_defs: Vec<MacroDecl> = vec![];
    let impl_sites = vec![ImplSite { target_type: s("Widget"), crate_name: s("engine") }];
    let crate_names = vec!["engine".to_string(), "app".to_string()];
    let lookups = build_def_lookups(&types, &traits, &macro_defs, &mods, &impl_sites, &crate_names);
    let uses = vec![
        use_fact("app/src/main.rs", "engine::Widget", "app"),
        use_fact("app/src/main.rs", "engine::Render", "app"),
        use_fact("app/src/main.rs", "engine::Color", "app"),
    ];
    let ctx = build_site_context(&uses, &types, &traits, &mods, &crates());
    let impls = vec![
        PatternFact { trait_name: s("Render"), crate_name: s("engine"), file: s("engine/src/lib.rs"), ..fact() },
        PatternFact { trait_name: s("Render"), crate_name: s("app"), file: s("app/src/main.rs"), ..fact() },
        PatternFact {
            trait_name: s("Render"),
            crate_name: s("app"),
            file: s("app/src/gated.rs"),
            cfg_gated: true,
            ..fact()
        },
    ];
    let type_usages = vec![
        PatternFact { name: s("Widget::new"), crate_name: s("app"), file: s("app/src/main.rs"), ..fact() },
        PatternFact { name: s("Widget::new"), crate_name: s("engine"), file: s("engine/src/lib.rs"), ..fact() },
    ];
    let src = KindSources {
        impls,
        derives: vec![],
        type_usages,
        macros: vec![],
        example_type_usages: vec![],
    };
    World { types, traits, lookups, ctx, src }
}

fn row<'a>(rows: &'a IndexMap<String, PatternMetric>, key: &str) -> &'a PatternMetric {
    rows.get(key).unwrap_or_else(|| panic!("no row {key}"))
}

fn vrow<'a>(rows: &'a [(String, PatternMetric)], key: &str) -> &'a PatternMetric {
    &rows.iter().find(|(k, _)| k == key).unwrap_or_else(|| panic!("no row {key}")).1
}

#[test]
fn pattern_def_follows_the_lookup_chain() {
    let w = world();
    let (d, from) = pattern_def("type_usage", "Widget::new", &w.lookups).unwrap();
    assert_eq!(d.crate_name, "engine");
    assert_eq!(from, DefSource::TypeDef);
    let (d, from) = pattern_def("trait_impl", "Render", &w.lookups).unwrap();
    assert_eq!(d.crate_name, "engine");
    assert_eq!(from, DefSource::TraitDef);
    let (d, from) = pattern_def("type_usage", "app::run", &w.lookups).unwrap();
    assert_eq!(d.crate_name, "app");
    assert_eq!(from, DefSource::CrateName);
    assert!(pattern_def("type_usage", "Unknown::x", &w.lookups).is_none());
    assert!(pattern_def("derive", "Widget", &w.lookups).is_none());
    let _ = (&w.types, &w.traits);
}

#[test]
fn kind_rows_credit_intra_and_inter_sites() {
    let w = world();
    let counts: Vec<(String, (usize, usize, usize))> = vec![];
    let enums = enum_type_names(&w.types);
    assert_eq!(enums, vec!["Color".to_string()]);
    let rows = compute_pattern_metrics(&w.src, None, &vec![], &w.lookups, &w.ctx, &counts, &enums, &dirs(), &filters(&[]), 2, &vec![], &classifier(30, 5));
    let keys: Vec<&str> = rows.keys().map(|k| k.as_str()).collect();
    assert_eq!(keys, vec!["traits:Render", "implementation_functions:Widget::new", "structure:Widget"]);
    let r = row(&rows, "traits:Render");
    assert_eq!((r.intra_count, r.inter_count, r.is_pub), (1, 1, true));
    assert_eq!(r.defining_crate.as_deref(), Some("engine"));
    let st = row(&rows, "structure:Widget");
    assert_eq!((st.intra_count, st.inter_count), (1, 1));
}

#[test]
fn skipped_patterns_are_dropped() {
    let w = world();
    let counts: Vec<(String, (usize, usize, usize))> = vec![];
    let rows = compute_pattern_metrics(&w.src, None, &vec![], &w.lookups, &w.ctx, &counts, &vec![], &dirs(), &filters(&["Widget::"]), 2, &vec![], &classifier(30, 5));
    let keys: Vec<&str> = rows.keys().map(|k| k.as_str()).collect();
    assert_eq!(keys, vec!["traits:Render"]);
}

#[test]
fn synthesized_rows_from_syntax_sites() {
    let w = world();
    let counts: Vec<(String, (usize, usize, usize))> = vec![];
    let enums = enum_type_names(&w.types);
    let ast = AstUsages {
        fn_sig: vec![AstIdentUsage { ident: "Widget".to_string(), file: "app/src/main.rs".to_string(), qualifier: None }],
        fields: vec![],
        type_aliases: vec![],
        method_refs: vec![
            AstMethodRef { outer: "Widget".to_string(), inner: "MAX".to_string(), file: "app/src/main.rs".to_string(), qualifier: None },
            AstMethodRef { outer: "Color".to_string(), inner: "Red".to_string(), file: "app/src/main.rs".to_string(), qualifier: None },
            AstMethodRef { outer: "Widget".to_string(), inner: "draw".to_string(), file: "app/src/main.rs".to_string(), qualifier: None },
            AstMethodRef { outer: "Render".to_string(), inner: "draw".to_string(), file: "engine/src/lib.rs".to_string(), qualifier: None },
        ],
        fn_calls: vec![AstFnCall { name: "helper".to_string(), file: "engine/src/lib.rs".to_string(), qualifier: None }],
    };
    let fns = vec![FnDecl {
        name: s("helper"),
        crate_name: s("engine"),
        file: s("engine/src/util.rs"),
        visibility: s("pub"),
        brace_depth: Some(0),
    }];
    let rows = compute_pattern_metrics(&w.src, Some(&ast), &fns, &w.lookups, &w.ctx, &counts, &enums, &dirs(), &filters(&[]), 2, &vec![], &classifier(30, 5));
    let keys: Vec<&str> = rows.keys().map(|k| k.as_str()).collect();
    assert_eq!(
        keys,
        vec![
            "traits:Render",
            "implementation_functions:Widget::new",
            "structure:Widget",
            "globals:Widget::MAX",
            "implementation_functions:_::draw",
            "utilities:helper",
            "structure:Color",
        ]
    );
    // the signature use is public and inter-crate
    let st = row(&rows, "structure:Widget");
    assert_eq!((st.intra_count, st.inter_count, st.is_pub), (1, 2, true));
    assert_eq!(row(&rows, "utilities:helper").sub_form, Some(SubForm::FreeFn));
    let fam = row(&rows, "implementation_functions:_::draw");
    assert_eq!((fam.intra_count, fam.inter_count), (1, 1));
    assert_eq!(fam.defining_crate.as_deref(), Some("engine"));
    let util = row(&rows, "utilities:helper");
    assert_eq!((util.intra_count, util.inter_count), (1, 0));
    let color = row(&rows, "structure:Color");
    assert_eq!((color.intra_count, color.inter_count, color.is_pub), (0, 1, true));
}

#[test]
fn example_evidence_is_gated_and_counted_per_name() {
    let w = world();
    let usages = vec![
        PatternFact { name: s("Widget"), crate_name: s("app"), file: s("app/examples/demo.rs"), ..fact() },
        PatternFact { name: s("Widget"), crate_name: s("app"), file: s("app/tests/it.rs"), ..fact() },
        PatternFact { name: s("Widget"), crate_name: s("app"), file: s("app/examples/demo.rs"), ..fact() },
        PatternFact { name: s("String"), crate_name: s("app"), file: s("app/examples/demo.rs"), ..fact() },
    ];
    let gated = gate_example_usages(&usages, &w.ctx);
    assert_eq!(gated.len(), 3);
    let counts = compute_example_counts(&gated);
    assert_eq!(counts, vec![("Widget".to_string(), (1, 1, 0))]);
}

#[test]
fn merge_and_translate_sum_collisions() {
    let w = world();
    let m = |intra: usize, inter: usize, krate: Option<&str>| PatternMetric {
        defining_crate: krate.map(|c| c.to_string()),
        intra_count: intra,
        inter_count: inter,
        is_pub: false,
        curated_example_count: 1,
        sub_form: None,
        example_files: 1,
        example_test_files: 0,
        example_bench_files: 0,
    };
    let mut t: Vec<(String, PatternMetric)> = vec![];
    merge_metric(&mut t, "traits:Render".to_string(), m(1, 2, None));
    merge_metric(&mut t, "traits:Render".to_string(), m(3, 4, Some("engine")));
    assert_eq!(t.len(), 1);
    assert_eq!((t[0].1.intra_count, t[0].1.inter_count, t[0].1.curated_example_count), (4, 6, 2));
    assert_eq!(t[0].1.defining_crate.as_deref(), Some("engine"));

    let rows = vec![
        ("trait_impl:Render".to_string(), m(1, 0, Some("engine"))),
        ("pub_type:Render".to_string(), m(0, 5, Some("engine"))),
        ("derive:Clone".to_string(), m(2, 0, None)),
        ("type_usage:Color::Red".to_string(), m(0, 1, Some("engine"))),
        ("type_usage:env::main".to_string(), m(0, 1, Some("engine"))),
        ("nonsense".to_string(), m(9, 9, None)),
    ];
    let enums = vec!["Color".to_string()];
    let out = translate_to_group_keys(&rows, &w.lookups, &enums);
    let keys: Vec<&str> = out.iter().map(|(k, _)| k.as_str()).collect();
    assert_eq!(keys, vec!["traits:Render", "configuring:Clone", "structure:Color"]);
    assert_eq!((out[0].1.intra_count, out[0].1.inter_count), (1, 5));
}

#[test]
fn sub_forms_follow_the_general_signals() {
    let w = world();
    let counts: Vec<(String, (usize, usize, usize))> = vec![];
    let mut rows: Vec<(String, PatternMetric)> = compute_pattern_metrics(&w.src, None, &vec![], &w.lookups, &w.ctx, &counts, &vec![], &dirs(), &filters(&[]), 2, &vec![], &classifier(30, 5)).into_iter().collect();
    let examples = vec![0; rows.len()];
    let macros: Vec<PatternFact> = vec![];
    classify_sub_forms(&mut rows, &examples, &w.src.impls, &macros, &ClassifierConfig { foundational_min_total: 2, lifecycle_impl_threshold: 2 });
    assert_eq!(vrow(&rows, "traits:Render").sub_form, Some(SubForm::Lifecycle));
    assert_eq!(vrow(&rows, "structure:Widget").sub_form, Some(SubForm::Foundational));
    assert_eq!(vrow(&rows, "implementation_functions:Widget::new").sub_form, None);
    classify_sub_forms(&mut rows, &examples, &w.src.impls, &macros, &ClassifierConfig { foundational_min_total: 3, lifecycle_impl_threshold: 3 });
    assert_eq!(vrow(&rows, "traits:Render").sub_form, Some(SubForm::Marker));
    assert_eq!(vrow(&rows, "structure:Widget").sub_form, Some(SubForm::Incidental));
}

#[test]
fn pattern_metrics_end_with_sub_forms() {
    let w = world();
    let counts: Vec<(String, (usize, usize, usize))> = vec![];
    let run = |examples: &Vec<(String, usize)>, c: ClassifierConfig| {
        compute_pattern_metrics(&w.src, None, &vec![], &w.lookups, &w.ctx, &counts, &vec![], &dirs(), &filters(&[]), 2, examples, &c)
    };
    let rows = run(&vec![], classifier(2, 2));
    assert_eq!(row(&rows, "traits:Render").sub_form, Some(SubForm::Lifecycle));
    assert_eq!(row(&rows, "structure:Widget").sub_form, Some(SubForm::Foundational));
    assert_eq!(row(&rows, "implementation_functions:Widget::new").sub_form, None);
    let rows = run(&vec![], classifier(3, 3));
    assert_eq!(row(&rows, "traits:Render").sub_form, Some(SubForm::Marker));
    assert_eq!(row(&rows, "structure:Widget").sub_form, Some(SubForm::Incidental));
    // The whole example count of the row lifts the structure over the threshold.
    let rows = run(&vec![("structure:Widget".to_string(), 1)], classifier(3, 3));
    assert_eq!(row(&rows, "structure:Widget").sub_form, Some(SubForm::Foundational));
}

#[test]
fn an_example_impl_is_curated_evidence_not_usage() {
    let w = world();
    let counts: Vec<(String, (usize, usize, usize))> = vec![];
    let before = compute_pattern_metrics(&w.src, None, &vec![], &w.lookups, &w.ctx, &counts, &vec![], &dirs(), &filters(&[]), 2, &vec![], &classifier(30, 5));
    let mut more = w.src.clone();
    more.impls.push(PatternFact { trait_name: s("Render"), crate_name: s("app"), file: s("app/examples/demo.rs"), ..fact() });
    let after = compute_pattern_metrics(&more, None, &vec![], &w.lookups, &w.ctx, &counts, &vec![], &dirs(), &filters(&[]), 2, &vec![], &classifier(30, 5));
    let (a, b) = (row(&before, "traits:Render"), row(&after, "traits:Render"));
    assert_eq!((b.intra_count, b.inter_count), (a.intra_count, a.inter_count));
    assert_eq!(b.curated_example_count, a.curated_example_count + 1);
}
