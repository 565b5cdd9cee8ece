use std::cmp::Ordering;

use know_rust::carry::filter_carries_to_workspace;
use know_rust::config::{ProseBudgetCell, ProseBudgetMatrix};
use know_rust::metrics::ItemDecl;
use know_rust::pattern::Pattern;
use know_rust::picks::{PickGroup, PickSet, SubForm};
use know_rust::sloc::{compute_sloc, strip_cfg_test};
use know_rust::text::str_ends_with;

fn cell(arch: usize, rest: usize) -> ProseBudgetCell {
    ProseBudgetCell {
        architecture: arch,
        public: rest,
        inter_crate: rest,
        clique: rest,
        intra_crate: rest,
        inner_crate: rest + 1,
    }
}

fn matrix() -> ProseBudgetMatrix {
    ProseBudgetMatrix {
        structure_foundational: cell(800, 10),
        structure_incidental: cell(400, 20),
        traits_lifecycle: cell(1200, 30),
        traits_marker: cell(500, 40),
        configuring: cell(1200, 50),
        implementation_functions: cell(300, 60),
        trait_functions: cell(300, 70),
        utilities_free_fn: cell(250, 80),
        utilities_macro: cell(350, 90),
        globals: cell(100, 100),
    }
}

#[test]
fn budget_lookup_by_row_and_column() {
    let pb = matrix();
    let arch = PickSet::Architecture;
    assert_eq!(pb.budget_for(PickGroup::Structure, Some(SubForm::Foundational), arch), 800);
    assert_eq!(pb.budget_for(PickGroup::Structure, Some(SubForm::Incidental), arch), 400);
    assert_eq!(pb.budget_for(PickGroup::Traits, Some(SubForm::Lifecycle), arch), 1200);
    assert_eq!(pb.budget_for(PickGroup::Traits, Some(SubForm::Marker), arch), 500);
    assert_eq!(pb.budget_for(PickGroup::Derives, None, arch), 1200);
    assert_eq!(pb.budget_for(PickGroup::ImplementationFunctions, None, arch), 300);
    assert_eq!(pb.budget_for(PickGroup::Utilities, Some(SubForm::FreeFn), arch), 250);
    assert_eq!(pb.budget_for(PickGroup::Globals, None, arch), 100);
    assert_eq!(pb.budget_for(PickGroup::TraitFunctions, None, PickSet::Clique), 70);
    assert_eq!(pb.budget_for(PickGroup::Globals, None, PickSet::InnerCrate), 101);
}

#[test]
fn budget_unclassified_uses_thin_row() {
    let pb = matrix();
    for set in [PickSet::Architecture, PickSet::Public, PickSet::InnerCrate] {
        assert_eq!(
            pb.budget_for(PickGroup::Structure, None, set),
            pb.budget_for(PickGroup::Structure, Some(SubForm::Incidental), set),
        );
        assert_eq!(
            pb.budget_for(PickGroup::Traits, None, set),
            pb.budget_for(PickGroup::Traits, Some(SubForm::Marker), set),
        );
        assert_eq!(
            pb.budget_for(PickGroup::Utilities, None, set),
            pb.budget_for(PickGroup::Utilities, Some(SubForm::Macro), set),
        );
    }
    // A sub-form of another group selects the thin row too.
    assert_eq!(pb.budget_for(PickGroup::Structure, Some(SubForm::Lifecycle), PickSet::Architecture), 400);
}

#[test]
fn sloc_skips_comments_and_blank_lines() {
    let src = "fn a() {}\n\n// c\n/* b\n c */\nlet x = 1; // t\n   \n";
    assert_eq!(compute_sloc(src), 2);
    assert_eq!(compute_sloc(""), 0);
    assert_eq!(compute_sloc("/// doc\n//! inner\n"), 0);
    assert_eq!(compute_sloc("a\nb\nc"), 3);
    // An unterminated block comment runs to the end of the text.
    assert_eq!(compute_sloc("x\n/* open\ny\n"), 1);
}

#[test]
fn cfg_test_items_are_stripped() {
    let src = "fn a() {}\n#[cfg(test)]\nmod tests { fn t() { } }\nfn b() {}\n";
    assert_eq!(strip_cfg_test(src), "fn a() {}\n\nfn b() {}\n");
    let src2 = "#[cfg(test)]\nuse foo;\nfn c() {}";
    assert_eq!(strip_cfg_test(src2), "\nfn c() {}");
    let src3 = "#[cfg(test)] #[allow(dead_code)] mod m { }x";
    assert_eq!(strip_cfg_test(src3), "x");
    assert_eq!(strip_cfg_test("fn plain() {}"), "fn plain() {}");
}

#[test]
fn ends_with_suffix() {
    assert!(str_ends_with("hello.rs", ".rs"));
    assert!(str_ends_with("abc", ""));
    assert!(!str_ends_with("rs", "hello.rs"));
    assert!(!str_ends_with("hello.rs", ".rx"));
}

#[test]
fn wire_order_between_patterns() {
    let a = Pattern::structure("Alpha");
    let b = Pattern::structure("Beta");
    assert_eq!(a.wire_cmp(&b), Ordering::Less);
    assert_eq!(b.wire_cmp(&a), Ordering::Greater);
    assert_eq!(a.wire_cmp(&Pattern::structure("Alpha")), Ordering::Equal);
    // "derives:..." sorts before "structure:...".
    assert_eq!(Pattern::derives("Zed").wire_cmp(&a), Ordering::Less);
}

fn decl(name: &str) -> ItemDecl {
    ItemDecl {
        name: Some(name.to_string()),
        crate_name: Some("core_crate".to_string()),
        visibility: Some("pub".to_string()),
        kind: Some("struct".to_string()),
    }
}

#[test]
fn carries_gated_to_workspace_items() {
    let types = vec![decl("World"), decl("Entity")];
    let traits = vec![decl("System")];
    let carries = vec![
        (Pattern::structure("World"), vec!["Entity".to_string(), "Vec".to_string()]),
        (Pattern::structure("Foreign"), vec!["Entity".to_string()]),
        (Pattern::traits("System"), vec!["String".to_string()]),
        (Pattern::impl_fn("_", "run"), vec!["System".to_string()]),
        (Pattern::utilities("helper"), vec!["World".to_string()]),
    ];
    let out = filter_carries_to_workspace(&carries, &types, &traits);
    assert_eq!(out.len(), 2);
    assert_eq!(out[0].0.to_string(), "structure:World");
    assert_eq!(out[0].1, vec!["Entity".to_string()]);
    assert_eq!(out[1].0.to_string(), "implementation_functions:_::run");
    assert_eq!(out[1].1, vec!["System".to_string()]);
}
