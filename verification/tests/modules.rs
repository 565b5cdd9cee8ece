use indexmap::IndexMap;
use know_rust::adopt::lock_versions;
use know_rust::emit_text::{
    budget_suffix, default_prompt, default_template, is_src_file, truncate_chars,
    use_tier_modifier, VisBackfill, DEV_USE_MODIFIER,
};
use know_rust::fingerprint::CrateInfo;
use know_rust::modules::{
    collect_decl_rows, file_module_chain, module_level_name_counts, split_chain, DeclFact,
    ModIndex,
};
use know_rust::pattern::Pattern;
use know_rust::picks::SubForm;
use know_rust::usage::{
    count_usages, is_constant_shaped, is_skip_dir, is_variant_shaped, resolve_crate_for_file,
};

fn strings(v: &[&str]) -> Vec<String> {
    v.iter().map(|s| s.to_string()).collect()
}

fn crates() -> IndexMap<String, CrateInfo> {
    let mut m = IndexMap::new();
    m.insert("core".to_string(), CrateInfo { dir: "crates/core/".to_string(), ..CrateInfo::default() });
    m.insert("root".to_string(), CrateInfo { dir: ".".to_string(), ..CrateInfo::default() });
    m
}

fn fact(name: &str, krate: &str, file: &str, mp: Option<&str>, vis: &str, hidden: bool) -> DeclFact {
    DeclFact {
        name: Some(name.to_string()),
        krate: Some(krate.to_string()),
        file: Some(file.to_string()),
        mod_path: mp.map(|s| s.to_string()),
        visibility: Some(vis.to_string()),
        doc_hidden: hidden,
    }
}

#[test]
fn module_chains_of_files() {
    assert_eq!(file_module_chain("crates/core/", "crates/core/src/lib.rs"), Some(vec![]));
    assert_eq!(file_module_chain("crates/core", "crates\\core\\src\\net\\mod.rs"), Some(strings(&["net"])));
    assert_eq!(file_module_chain(".", "src/a/b.rs"), Some(strings(&["a", "b"])));
    assert_eq!(file_module_chain("", "src/bin/tool.rs"), Some(vec![]));
    assert_eq!(file_module_chain("crates/core", "crates/other/src/lib.rs"), None);
    assert_eq!(file_module_chain(".", "tests/a.rs"), None);
    assert_eq!(file_module_chain(".", "src/a.txt"), None);
    assert_eq!(split_chain(""), Vec::<String>::new());
    assert_eq!(split_chain("a::b"), strings(&["a", "b"]));
}

#[test]
fn mod_index_publicness_along_chains() {
    let cs = crates();
    let mods = vec![
        fact("net", "core", "crates/core/src/lib.rs", None, "pub", false),
        fact("tcp", "core", "crates/core/src/net/mod.rs", None, "pub", false),
        fact("tcp", "core", "crates/core/src/net/mod.rs", None, "crate", true),
        fact("inner", "core", "crates/core/src/lib.rs", None, "crate", false),
    ];
    let idx = ModIndex::build(&mods, &cs);
    assert!(idx.chain_public("core", &strings(&["net", "tcp"])));
    assert!(!idx.chain_public("core", &strings(&["inner"])));
    assert!(idx.chain_public("core", &Vec::new()));
    assert_eq!(idx.vis_of("core", &strings(&["net", "tcp"])), Some((true, false)));
    assert_eq!(idx.vis_of("core", &strings(&["inner"])), Some((false, false)));
    assert_eq!(idx.vis_of("core", &strings(&["nowhere"])), None);
    let rows = vec![
        fact("spawn", "core", "crates/core/src/net/tcp.rs", Some(""), "pub", false),
        fact("main", "core", "crates/core/src/main.rs", Some(""), "pub", false),
        fact("hidden", "core", "crates/core/src/lib.rs", Some(""), "pub", true),
        fact("private", "core", "crates/core/src/lib.rs", Some(""), "crate", false),
        fact("deep", "core", "crates/core/src/inner.rs", Some("x::y"), "pub", false),
        fact("ex", "core", "crates/core/examples/e.rs", Some(""), "pub", false),
    ];
    let cands = collect_decl_rows(&rows, &cs, &idx, true);
    let got: Vec<_> = cands.iter().map(|c| (c.name.clone(), c.chain.clone(), c.hard_public)).collect();
    assert_eq!(
        got,
        vec![
            ("spawn".to_string(), strings(&["net", "tcp"]), true),
            ("deep".to_string(), strings(&["inner", "x", "y"]), false),
        ]
    );
    let counts = module_level_name_counts(&vec![rows.clone(), vec![fact("spawn", "core", "f", Some("a"), "pub", false)]]);
    let spawn = counts.iter().find(|e| e.0 == ("core".to_string(), "spawn".to_string())).map(|e| e.1);
    assert_eq!(spawn, Some(2));
}

#[test]
fn lock_versions_groups_sorted_distinct() {
    let text = "[[package]]\nname = \"b\"\nversion = \"1.0.0\"\n\n[[package]]\nname = \"a\"\nversion = \"0.2.0\"\n[[package]]\nname = \"b\"\nversion = \"0.9.0\"\n[[package]]\nname = \"b\"\nversion = \"1.0.0\"\nversion = \"9.9.9\"\n";
    let v = lock_versions(text);
    assert_eq!(
        v,
        vec![
            ("a".to_string(), strings(&["0.2.0"])),
            ("b".to_string(), strings(&["0.9.0", "1.0.0"])),
        ]
    );
    assert_eq!(lock_versions(""), Vec::new());
}

#[test]
fn usage_attribution_by_longest_dir() {
    let mut dirs: IndexMap<String, String> = IndexMap::new();
    dirs.insert("root".to_string(), ".".to_string());
    dirs.insert("core".to_string(), "crates/core/".to_string());
    dirs.insert("core_ext".to_string(), "crates/core/ext".to_string());
    assert_eq!(resolve_crate_for_file("crates/core/ext/src/a.rs", &dirs), "core_ext");
    assert_eq!(resolve_crate_for_file("crates\\core\\src\\a.rs", &dirs), "core");
    assert_eq!(resolve_crate_for_file("src/main.rs", &dirs), "root");
    let files = strings(&[
        "crates/core/src/a.rs",
        "crates/core/ext/src/b.rs",
        "crates/core/examples/e.rs",
        "crates/core/examples/e.rs",
        "tests/t.rs",
        "benches/b.rs",
    ]);
    assert_eq!(count_usages(&files, "core", &dirs), (1, 1, 3, 1));
    let empty: IndexMap<String, String> = IndexMap::new();
    assert_eq!(count_usages(&files, "core", &empty), (0, 0, 0, 0));
}

#[test]
fn name_shapes_and_skip_dirs() {
    assert!(is_constant_shaped("MAX_LEN"));
    assert!(!is_constant_shaped("Max"));
    assert!(!is_constant_shaped(""));
    assert!(is_variant_shaped("NotFound"));
    assert!(!is_variant_shaped("MAX"));
    assert!(!is_variant_shaped("lower"));
    assert!(is_skip_dir("ws/target/debug/x.rs"));
    assert!(is_skip_dir(".git"));
    assert!(!is_skip_dir("ws/targets/x.rs"));
}

#[test]
fn emit_text_helpers() {
    assert_eq!(use_tier_modifier("dev_use"), Some(DEV_USE_MODIFIER));
    assert!(use_tier_modifier("end_use").unwrap().starts_with("Workspace is a pure **end-user product**"));
    assert!(use_tier_modifier("dev_with_end_use").unwrap().contains("notes/know_rust/next-phase-agent-augmentation.md"));
    assert_eq!(use_tier_modifier("mixed"), None);
    assert!(is_src_file("crates/a/src/lib.rs"));
    assert!(!is_src_file("tests/a.rs"));
    assert!(!is_src_file("crates/a/examples/x.rs"));
    assert_eq!(truncate_chars("héllo", 2), "hé");
    assert_eq!(truncate_chars("ab", 10), "ab");
    assert_eq!(budget_suffix(0, Some(SubForm::Marker)), "");
    assert_eq!(budget_suffix(350, None), " - budget 350");
    assert_eq!(budget_suffix(1200, Some(SubForm::Lifecycle)), " - budget 1200 (lifecycle)");
    assert_eq!(default_prompt("x"), None);
    assert_eq!(default_template("x"), None);
    let vb = VisBackfill { traits: strings(&["Plugin"]), types: strings(&["World"]), package: None };
    assert!(vb.backfills(&Pattern::traits("Plugin")));
    assert!(vb.backfills(&Pattern::derives("Plugin")));
    assert!(vb.backfills(&Pattern::structure("World")));
    assert!(!vb.backfills(&Pattern::structure("Plugin")));
    assert!(!vb.backfills(&Pattern::utilities("World")));
}
