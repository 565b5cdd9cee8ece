use indexmap::IndexMap;
use know_rust::fingerprint::CrateInfo;
use know_rust::resolution::{
    build_facade_index, build_import_bindings, resolve_ident_origin, resolve_site_origin,
    site_credits, IdentOrigin, NameSets, ResolveVocab,
};
use know_rust::use_tree::{parse_use_leaves, use_path_is_defined, UseLeaf};

fn pairs(v: &[(&str, &str)]) -> Vec<(String, String)> {
    v.iter().map(|(a, b)| (a.to_string(), b.to_string())).collect()
}

fn crate_info(lib_name: Option<&str>, renames: &[(&str, &str)]) -> CrateInfo {
    CrateInfo {
        lib_name: lib_name.map(|s| s.to_string()),
        renames: renames.iter().map(|(a, b)| (a.to_string(), b.to_string())).collect(),
        ..CrateInfo::default()
    }
}

fn named(l: &UseLeaf) -> Option<(String, Option<String>)> {
    match l {
        UseLeaf::Named { binding, source } => Some((binding.clone(), source.clone())),
        UseLeaf::Glob { .. } => None,
    }
}

#[test]
fn use_tree_expands_groups_renames_self_and_globs() {
    let p = parse_use_leaves("r#foo::bar::{Baz, qux as Quux, self, inner::{Deep}, *}");
    assert_eq!(p.root, "foo");
    let got: Vec<_> = p.leaves.iter().map(named).collect();
    assert_eq!(
        got,
        vec![
            Some(("Baz".to_string(), Some("Baz".to_string()))),
            Some(("Quux".to_string(), Some("qux".to_string()))),
            Some(("bar".to_string(), Some("bar".to_string()))),
            Some(("Deep".to_string(), Some("Deep".to_string()))),
            None,
        ]
    );
}

#[test]
fn use_tree_single_segment_rename_and_full_path_glob() {
    let p = parse_use_leaves("core_k as ck");
    assert_eq!(p.root, "core_k");
    assert_eq!(named(&p.leaves[0]), Some(("ck".to_string(), Some("core_k".to_string()))));
    let g = parse_use_leaves("a::b::*");
    assert_eq!(g.leaves.len(), 1);
    assert!(matches!(&g.leaves[0], UseLeaf::Glob { parent: Some(p) } if p == "b"));
    let top = parse_use_leaves("glam::*");
    assert!(matches!(&top.leaves[0], UseLeaf::Glob { parent: Some(p) } if p == "glam"));
    let grouped = parse_use_leaves("a::x::{*, Y}");
    assert!(matches!(&grouped.leaves[0], UseLeaf::Glob { parent: Some(p) } if p == "x"));
    let e = parse_use_leaves("   ");
    assert_eq!(e.root, "");
    assert!(e.leaves.is_empty());
}

#[test]
fn use_tree_detects_unreadable_brace_group() {
    assert!(use_path_is_defined("a::{B, C}"));
    assert!(!use_path_is_defined("a::}x{"));
}

#[test]
fn import_bindings_first_wins_and_skip_globs() {
    let uses = pairs(&[
        ("src/a.rs", "std::collections::HashMap"),
        ("src/a.rs", "other::HashMap"),
        ("src/a.rs", "glob::*"),
        ("src/b.rs", "crate::model::{Pattern as P}"),
    ]);
    let maps = build_import_bindings(&uses);
    let b = maps.get("src/a.rs", "HashMap").expect("bound");
    assert_eq!(b.root, "std");
    assert_eq!(maps.get("src/a.rs", "*").map(|b| b.root.clone()), None);
    let p = maps.get("src/b.rs", "P").expect("bound");
    assert_eq!(p.root, "crate");
    assert_eq!(p.source.as_deref(), Some("Pattern"));
    assert!(maps.get("src/b.rs", "HashMap").is_none());
    assert_eq!(maps.entries.len(), 2);
}

#[test]
fn vocabulary_lib_rename_and_dependency_overlay() {
    let mut crates: IndexMap<String, CrateInfo> = IndexMap::new();
    crates.insert("libcosmic".to_string(), crate_info(Some("cosmic"), &[]));
    crates.insert("my-app".to_string(), crate_info(None, &[("ui", "libcosmic")]));
    let vocab = ResolveVocab::from_crates(&crates);
    assert_eq!(vocab.resolve_root("my-app", "cosmic").map(|s| s.as_str()), Some("libcosmic"));
    assert_eq!(vocab.resolve_root("other", "my_app").map(|s| s.as_str()), Some("my-app"));
    assert_eq!(vocab.resolve_root("my-app", "ui").map(|s| s.as_str()), Some("libcosmic"));
    assert_eq!(vocab.resolve_root("libcosmic", "ui"), None);
    assert_eq!(vocab.resolve_root("my-app", "serde"), None);
}

#[test]
fn ident_origin_follows_imports_then_prelude() {
    let mut crates: IndexMap<String, CrateInfo> = IndexMap::new();
    crates.insert("core_k".to_string(), crate_info(None, &[]));
    crates.insert("app".to_string(), crate_info(None, &[]));
    let vocab = ResolveVocab::from_crates(&crates);
    let maps = build_import_bindings(&pairs(&[
        ("src/main.rs", "core_k::Engine"),
        ("src/main.rs", "serde::Serialize"),
        ("src/main.rs", "std::fmt::Write"),
        ("src/main.rs", "super::Local"),
    ]));
    let mut decl = NameSets::new();
    decl.insert("Result", "app");
    let f = "src/main.rs";
    assert_eq!(
        resolve_ident_origin(f, "Engine", "app", &maps, &vocab, &decl),
        IdentOrigin::Workspace("core_k".to_string())
    );
    assert_eq!(resolve_ident_origin(f, "Serialize", "app", &maps, &vocab, &decl), IdentOrigin::External);
    assert_eq!(resolve_ident_origin(f, "Write", "app", &maps, &vocab, &decl), IdentOrigin::Std);
    assert_eq!(resolve_ident_origin(f, "Local", "app", &maps, &vocab, &decl), IdentOrigin::SelfCrate);
    assert_eq!(resolve_ident_origin(f, "Vec", "app", &maps, &vocab, &decl), IdentOrigin::Std);
    assert_eq!(resolve_ident_origin(f, "Result", "app", &maps, &vocab, &decl), IdentOrigin::SelfCrate);
    assert_eq!(resolve_ident_origin(f, "Widget", "app", &maps, &vocab, &decl), IdentOrigin::Unresolved);
}

#[test]
fn site_origin_reads_qualifiers() {
    let mut crates: IndexMap<String, CrateInfo> = IndexMap::new();
    crates.insert("core_k".to_string(), crate_info(None, &[]));
    let vocab = ResolveVocab::from_crates(&crates);
    let maps = build_import_bindings(&pairs(&[("src/lib.rs", "std::io")]));
    let decl = NameSets::new();
    let mut mods = NameSets::new();
    mods.insert("util", "app");
    let f = "src/lib.rs";
    let site = |q: Option<&str>| resolve_site_origin(f, "x", q, "app", &maps, &vocab, &decl, &mods);
    assert_eq!(site(Some("std")), IdentOrigin::Std);
    assert_eq!(site(Some("crate")), IdentOrigin::SelfCrate);
    assert_eq!(site(Some("core_k")), IdentOrigin::Workspace("core_k".to_string()));
    assert_eq!(site(Some("io")), IdentOrigin::Std);
    assert_eq!(site(Some("util")), IdentOrigin::Unresolved);
    assert_eq!(site(Some("git2")), IdentOrigin::External);
    assert_eq!(site(None), IdentOrigin::Unresolved);
}

#[test]
fn facade_index_closes_namespace_chains() {
    let mut crates: IndexMap<String, CrateInfo> = IndexMap::new();
    crates.insert("libcosmic".to_string(), crate_info(Some("cosmic"), &[]));
    crates.insert("iced".to_string(), crate_info(None, &[]));
    crates.insert("iced_core".to_string(), crate_info(None, &[]));
    let vocab = ResolveVocab::from_crates(&crates);
    let reexports = pairs(&[
        ("libcosmic", "iced"),
        ("iced", "iced_core as core"),
        ("iced_core", "iced::*"),
        ("iced_core", "crate::widget::{Button, Row as R}"),
        ("iced", "iced_core::{Color}"),
    ]);
    let f = build_facade_index(&reexports, &vocab);
    assert!(f.ns_closure.contains("libcosmic", "iced"));
    assert!(f.ns_closure.contains("libcosmic", "iced_core"));
    assert!(f.ns_closure.contains("iced", "iced_core"));
    assert!(!f.ns_closure.contains("iced", "iced"));
    assert!(!f.ns_closure.contains("libcosmic", "libcosmic"));
    assert!(f.leaf_reexports.contains("iced_core", "Button"));
    assert!(f.leaf_reexports.contains("iced_core", "R"));
    assert!(!f.leaf_reexports.contains("iced_core", "Row"));
    assert!(f.credits("libcosmic", "iced_core", "Anything"));
    assert!(f.credits("iced", "elsewhere", "Color"));
    assert!(!f.credits("iced", "elsewhere", "Other"));
}

#[test]
fn site_credit_verdicts() {
    let vocab = ResolveVocab::from_crates(&IndexMap::new());
    let f = build_facade_index(&pairs(&[("facade", "inner::{Thing}")]), &vocab);
    let ws = IdentOrigin::Workspace("facade".to_string());
    assert!(!site_credits(&IdentOrigin::Std, "a", "b", "X", &f));
    assert!(!site_credits(&IdentOrigin::External, "a", "b", "X", &f));
    assert!(site_credits(&IdentOrigin::Unresolved, "a", "b", "X", &f));
    assert!(site_credits(&IdentOrigin::SelfCrate, "b", "b", "X", &f));
    assert!(!site_credits(&IdentOrigin::SelfCrate, "a", "b", "X", &f));
    assert!(site_credits(&ws, "a", "inner", "Thing", &f));
    assert!(!site_credits(&ws, "a", "inner", "Other", &f));
    assert!(site_credits(&IdentOrigin::Workspace("inner".to_string()), "a", "inner", "Other", &f));
}
