use know_rust::demand::{
    demand_norm, demand_resolved, parse_consumer_rows, resolve_consumer_root, root_candidates,
    root_in_targets, ConsumerRole, ConsumerRoot, ConsumerRow, DemandRecord, DemandReport,
    DemandSummary,
};
use know_rust::resolution::{build_import_bindings, ImportBinding};
use know_rust::weights::{fold_weights, WeightBlob};

fn pairs(v: &[(&str, &str)]) -> Vec<(String, String)> {
    v.iter().map(|(a, b)| (a.to_string(), b.to_string())).collect()
}

fn strings(v: &[&str]) -> Vec<String> {
    v.iter().map(|s| s.to_string()).collect()
}

#[test]
fn demand_roots_normalize_and_follow_renames() {
    assert_eq!(demand_norm("my-crate-x"), "my_crate_x");
    let renames = pairs(&[("tk", "tokio-core")]);
    let targets = strings(&["tokio_core", "serde"]);
    assert!(root_in_targets("serde", &renames, &targets));
    assert!(root_in_targets("tokio-core", &renames, &targets));
    assert!(root_in_targets("tk", &renames, &targets));
    assert!(!root_in_targets("rand", &renames, &targets));
    assert_eq!(root_candidates("tk", &renames), strings(&["tk", "tokio_core"]));
    assert_eq!(root_candidates("serde", &renames), strings(&["serde"]));
}

#[test]
fn demand_resolution_paths() {
    let imap = build_import_bindings(&pairs(&[
        ("src/main.rs", "tokio::spawn"),
        ("src/main.rs", "tokio::Runtime as Rt"),
        ("src/main.rs", "crate::nu"),
        ("src/main.rs", "tokio as tk"),
    ]));
    let aliases = vec![(
        "Handle".to_string(),
        ImportBinding { root: "tokio".to_string(), source: Some("RuntimeHandle".to_string()) },
    )];
    let renames: Vec<(String, String)> = Vec::new();
    let targets = strings(&["tokio"]);
    let local = pairs(&[("src/main.rs", "util")]);
    let f = "src/main.rs";
    let res = |name: &str, q: Option<&str>| {
        demand_resolved(f, name, q, &imap, &aliases, &renames, &targets, &local)
    };
    assert_eq!(res("spawn", None), Some(("spawn".to_string(), "tokio".to_string())));
    assert_eq!(res("Rt", None), Some(("Runtime".to_string(), "tokio".to_string())));
    assert_eq!(res("Handle", None), Some(("RuntimeHandle".to_string(), "tokio".to_string())));
    assert_eq!(res("spawn_blocking", Some("tk")), Some(("spawn_blocking".to_string(), "tokio".to_string())));
    assert_eq!(res("execute", Some("nu")), None);
    assert_eq!(res("helper", Some("util")), None);
    assert_eq!(res("Other", None), None);
    assert_eq!(res("Handle", Some("tokio")), Some(("RuntimeHandle".to_string(), "tokio".to_string())));
}

#[test]
fn consumer_roster_rows_and_root_overrides() {
    let text = "# roster\n\ntokio  tokio_user weight https://x/y/tokio-user.git extra\n# root: /tmp/checkout \nserde s audit local:/opt/s x\nbad row\nclap c review url x\n";
    let rows = parse_consumer_rows(text);
    assert_eq!(rows.len(), 2);
    assert_eq!(rows[0].target, "tokio");
    assert_eq!(rows[0].snake, "tokio_user");
    assert_eq!(rows[0].role, ConsumerRole::Weight);
    assert_eq!(rows[0].url, "https://x/y/tokio-user.git");
    assert_eq!(rows[0].root_override.as_deref(), Some("/tmp/checkout"));
    assert_eq!(rows[1].role, ConsumerRole::Audit);
    assert_eq!(rows[1].root_override, None);
    assert_eq!(ConsumerRole::Weight.wire(), "weight");
    assert_eq!(ConsumerRole::Audit.wire(), "audit");
    assert_eq!(resolve_consumer_root(&rows[0]), ConsumerRoot::Path("/tmp/checkout".to_string()));
    assert_eq!(resolve_consumer_root(&rows[1]), ConsumerRoot::Path("/opt/s".to_string()));
    let plain = ConsumerRow {
        target: "t".to_string(),
        snake: "s".to_string(),
        role: ConsumerRole::Weight,
        url: "https://github.com/o/repo.git".to_string(),
        root_override: None,
    };
    assert_eq!(resolve_consumer_root(&plain), ConsumerRoot::InPairDir("repo".to_string()));
}

fn record(name: &str, sites: usize) -> DemandRecord {
    DemandRecord { name: name.to_string(), kinds: Vec::new(), srcs: Vec::new(), sites }
}

fn report(hits: Vec<DemandRecord>, misses: Vec<DemandRecord>, pair_sites: Vec<(String, usize)>) -> DemandReport {
    DemandReport {
        summary: DemandSummary {
            demanded_names: 0,
            hits: 0,
            miss_count: 0,
            misses,
            mod_namespace_count: 0,
            foreign_reexport_count: 0,
            foreign_reexports: Vec::new(),
            pairs_total: 0,
            pair_exact: 0,
            pair_name_level: 0,
            pair_miss_count: 0,
            pair_misses: Vec::new(),
            pair_foreign: Vec::new(),
            globs: Vec::new(),
        },
        hits,
        mod_namespace: Vec::new(),
        pair_name_level: Vec::new(),
        pair_sites,
    }
}

#[test]
fn weights_fold_counts_consumers_and_sites() {
    let mut blob = WeightBlob { targets: Vec::new() };
    let r1 = report(vec![record("Spawn", 3), record("Runtime", 0)], vec![record("Gone", 2)], vec![("Runtime::new".to_string(), 0)]);
    fold_weights(&mut blob, "tokio", "a", "/p/a", &r1);
    let r2 = report(vec![record("Spawn", 1)], Vec::new(), vec![("Runtime::new".to_string(), 4)]);
    fold_weights(&mut blob, "tokio", "b", "/p/b", &r2);
    fold_weights(&mut blob, "serde", "c", "/p/c", &report(Vec::new(), Vec::new(), Vec::new()));
    assert_eq!(blob.targets.len(), 2);
    let tw = &blob.targets[0].1;
    assert_eq!(blob.targets[0].0, "tokio");
    assert_eq!(tw.sources.len(), 2);
    assert_eq!(tw.sources[1].consumer, "b");
    assert_eq!(tw.sources[1].pass, "/p/b");
    let cell = |k: &str| tw.names.iter().find(|e| e.0 == k).map(|e| (e.1.consumers, e.1.sites));
    assert_eq!(cell("Spawn"), Some((2, 4)));
    assert_eq!(cell("Runtime"), Some((1, 1)));
    assert_eq!(cell("Gone"), Some((1, 2)));
    let pair = tw.pairs.iter().find(|e| e.0 == "Runtime::new").map(|e| (e.1.consumers, e.1.sites));
    assert_eq!(pair, Some((2, 5)));
    assert_eq!(blob.targets[1].1.sources.len(), 1);
}
