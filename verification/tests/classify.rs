use indexmap::IndexMap;
use know_rust::cluster::{cluster_crates_by_prefix, name_prefixes};
use know_rust::config::ClassificationConfig;
use know_rust::fingerprint::{CrateInfo, PatternMetric};
use know_rust::sorting::{dedup_sorted_strings, sort_strings};
use know_rust::use_class::{
    classify_crate_use, classify_crate_use_checked, classify_workspace_use, classify_workspace_use_checked,
    is_scaffolding, metrics_inter_total,
};

fn info(dir: &str, has_bin: bool, has_lib: bool) -> CrateInfo {
    CrateInfo { dir: dir.to_string(), has_bin, has_lib, ..CrateInfo::default() }
}

fn metric(defining: &str, inter: usize, is_pub: bool) -> PatternMetric {
    PatternMetric {
        defining_crate: Some(defining.to_string()),
        intra_count: 0,
        inter_count: inter,
        is_pub,
        curated_example_count: 0,
        sub_form: None,
        example_files: 0,
        example_test_files: 0,
        example_bench_files: 0,
    }
}

fn strings(v: &[&str]) -> Vec<String> {
    v.iter().map(|s| s.to_string()).collect()
}

#[test]
fn scaffolding_by_dir_and_name() {
    assert!(is_scaffolding("anything", &info("crates/Examples/foo", false, true)));
    assert!(is_scaffolding("anything", &info("xtask", true, false)));
    assert!(is_scaffolding("my_demo", &info("crates/x", false, true)));
    assert!(is_scaffolding("Bench-Harness", &info("crates/x", false, true)));
    assert!(is_scaffolding("tests-integration", &info("crates/x", false, true)));
    assert!(!is_scaffolding("core", &info("crates/core", false, true)));
    assert!(!is_scaffolding("tokio", &info(".", false, true)));
}

#[test]
fn crate_use_labels() {
    let mut metrics: IndexMap<String, PatternMetric> = IndexMap::new();
    metrics.insert("structure:A".to_string(), metric("app", 3, true));
    metrics.insert("structure:B".to_string(), metric("app", 4, true));
    metrics.insert("structure:C".to_string(), metric("app", 100, false));
    let cfg = ClassificationConfig { dev_with_end_threshold: 7 };
    assert_eq!(classify_crate_use("lib", &info("l", false, true), &metrics, &cfg), "dev_use");
    assert_eq!(classify_crate_use("bin", &info("b", true, false), &metrics, &cfg), "end_use");
    assert_eq!(classify_crate_use("none", &info("n", false, false), &metrics, &cfg), "dev_use");
    assert_eq!(classify_crate_use("app", &info("a", true, true), &metrics, &cfg), "dev_with_end_use");
    let strict = ClassificationConfig { dev_with_end_threshold: 8 };
    assert_eq!(classify_crate_use("app", &info("a", true, true), &metrics, &strict), "end_with_dev_use");
}

#[test]
fn workspace_use_classification_mixed() {
    let mut crates: IndexMap<String, CrateInfo> = IndexMap::new();
    crates.insert("zeta_examples".to_string(), info("examples/zeta", true, false));
    crates.insert("core".to_string(), info("crates/core", false, true));
    crates.insert("cli".to_string(), info("crates/cli", true, false));
    crates.insert("alpha-bench".to_string(), info("crates/alpha", true, false));
    let metrics: IndexMap<String, PatternMetric> = IndexMap::new();
    let cfg = ClassificationConfig { dev_with_end_threshold: 1 };
    let c = classify_workspace_use(&crates, &metrics, &cfg);
    assert_eq!(c.workspace, "end_with_dev_use");
    assert_eq!(
        c.per_crate,
        vec![("core".to_string(), "dev_use".to_string()), ("cli".to_string(), "end_use".to_string())]
    );
    assert_eq!(
        c.buckets,
        vec![
            ("end_use".to_string(), 1),
            ("dev_use".to_string(), 1),
            ("end_with_dev_use".to_string(), 0),
            ("dev_with_end_use".to_string(), 0),
        ]
    );
    assert_eq!(c.scaffolding_crates, strings(&["alpha-bench", "zeta_examples"]));
    assert_eq!(
        c.reasoning,
        "primary crates: end_use=1 end_with_dev_use=0 dev_with_end_use=0 dev_use=1; the workspace ships an end-user product with the libraries composing it (2 scaffolding crates excluded)"
    );
}

#[test]
fn workspace_use_classification_all_libraries_and_empty() {
    let mut crates: IndexMap<String, CrateInfo> = IndexMap::new();
    for n in ["a", "b", "c", "d", "e", "f", "g", "h", "i", "j", "k", "l"] {
        crates.insert(n.to_string(), info(n, false, true));
    }
    let metrics: IndexMap<String, PatternMetric> = IndexMap::new();
    let cfg = ClassificationConfig { dev_with_end_threshold: 1 };
    let c = classify_workspace_use(&crates, &metrics, &cfg);
    assert_eq!(c.workspace, "dev_use");
    assert_eq!(c.reasoning, "all 12 primary crates are pure dev_use libraries");
    let empty = classify_workspace_use(&IndexMap::new(), &metrics, &cfg);
    assert_eq!(empty.workspace, "dev_use");
    assert_eq!(empty.reasoning, "no primary crates after scaffolding exclusion");
}

#[test]
fn workspace_use_classification_library_with_cli() {
    let mut crates: IndexMap<String, CrateInfo> = IndexMap::new();
    crates.insert("gix".to_string(), info("gix", true, true));
    crates.insert("gix-core".to_string(), info("gix-core", false, true));
    let mut metrics: IndexMap<String, PatternMetric> = IndexMap::new();
    metrics.insert("structure:Repo".to_string(), metric("gix", 5, true));
    let cfg = ClassificationConfig { dev_with_end_threshold: 5 };
    let c = classify_workspace_use(&crates, &metrics, &cfg);
    assert_eq!(c.workspace, "dev_with_end_use");
    assert_eq!(
        c.reasoning,
        "primary crates: dev_use=1 dev_with_end_use=1; the workspace's primary deliverable is a library with a CLI auxiliary (gitoxide pattern)"
    );
}

#[test]
fn sorting_orders_by_character_and_dedups() {
    let v = strings(&["b", "a", "ab", "B", "a", ""]);
    let s = sort_strings(&v);
    assert_eq!(s, strings(&["", "B", "a", "a", "ab", "b"]));
    assert_eq!(dedup_sorted_strings(&s), strings(&["", "B", "a", "ab", "b"]));
}

#[test]
fn prefixes_longest_first_underscore_then_dash() {
    assert_eq!(name_prefixes("bevy_ecs_macros"), strings(&["bevy_ecs", "bevy"]));
    assert_eq!(name_prefixes("tokio-util_x"), strings(&["tokio-util", "tokio"]));
    assert_eq!(name_prefixes("_lead"), strings(&[] as &[&str]));
    assert_eq!(name_prefixes("plain"), strings(&[] as &[&str]));
}

fn clustered(names: &Vec<String>, min_size: usize) -> (Vec<(String, Vec<String>)>, Vec<String>) {
    let (clusters, others) = cluster_crates_by_prefix(names, min_size);
    (clusters.into_iter().collect(), others)
}

#[test]
fn clusters_by_shared_prefix() {
    let names = strings(&["bevy_ecs", "tokio", "bevy_app", "bevy_ecs_macros", "serde", "bevy_render"]);
    let (clusters, others) = clustered(&names, 2);
    assert_eq!(
        clusters,
        vec![(
            "bevy".to_string(),
            strings(&["bevy_app", "bevy_ecs", "bevy_ecs_macros", "bevy_render"])
        )]
    );
    assert_eq!(others, strings(&["serde", "tokio"]));
    let (tight, rest) = clustered(&names, 1);
    assert_eq!(
        tight,
        vec![
            ("bevy".to_string(), strings(&["bevy_app", "bevy_ecs", "bevy_render"])),
            ("bevy_ecs".to_string(), strings(&["bevy_ecs_macros"])),
        ]
    );
    assert_eq!(rest, strings(&["serde", "tokio"]));
}

#[test]
fn small_clusters_dissolve_into_others() {
    let names = strings(&["a_c", "a_b_2", "a_b_1"]);
    let (clusters, others) = clustered(&names, 2);
    assert_eq!(clusters, vec![("a_b".to_string(), strings(&["a_b_1", "a_b_2"]))]);
    assert_eq!(others, strings(&["a_c"]));
    let (none, all) = clustered(&strings(&["x_1", "y_1", "z"]), 2);
    assert!(none.is_empty());
    assert_eq!(all, strings(&["x_1", "y_1", "z"]));
}

#[test]
fn clustering_keeps_every_name_once_and_members_sorted() {
    let names = strings(&["tokio_util", "bevy_ecs", "tokio", "bevy_app", "tokio-macros", "bevy_ecs", "serde", "tokio_stream"]);
    let (clusters, others) = clustered(&names, 2);
    let mut placed: Vec<String> = clusters.iter().flat_map(|(_, m)| m.iter().cloned()).collect();
    placed.extend(others.iter().cloned());
    let mut given = names.clone();
    placed.sort();
    given.sort();
    assert_eq!(placed, given);
    for (key, members) in &clusters {
        let mut sorted = members.clone();
        sorted.sort();
        assert_eq!(&sorted, members);
        for m in members {
            assert!(m.starts_with(&format!("{key}_")) || m.starts_with(&format!("{key}-")));
        }
    }
}

#[test]
fn checked_classification_reports_overflowing_totals() {
    let mut metrics: IndexMap<String, PatternMetric> = IndexMap::new();
    metrics.insert("structure:A".to_string(), metric("app", 3, true));
    metrics.insert("structure:B".to_string(), metric("app", 4, true));
    assert_eq!(metrics_inter_total(&metrics), Some(7));
    let cfg = ClassificationConfig { dev_with_end_threshold: 7 };
    assert_eq!(classify_crate_use_checked("app", &info("a", true, true), &metrics, &cfg), Some("dev_with_end_use".to_string()));
    let mut crates: IndexMap<String, CrateInfo> = IndexMap::new();
    crates.insert("core".to_string(), info("crates/core", false, true));
    let c = classify_workspace_use_checked(&crates, &metrics, &cfg).unwrap();
    assert_eq!(c.workspace, "dev_use");
    metrics.insert("structure:C".to_string(), metric("app", usize::MAX, false));
    assert_eq!(metrics_inter_total(&metrics), None);
    assert!(classify_crate_use_checked("app", &info("a", true, true), &metrics, &cfg).is_none());
    assert!(classify_workspace_use_checked(&crates, &metrics, &cfg).is_none());
}
