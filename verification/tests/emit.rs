use know_rust::instances::{FactRecord, InstanceFacts, instance_for_kind, span, span_basic};
use know_rust::pattern::Pattern;
use know_rust::reference::{ReferenceFacts, join_strings, render_reference};
use know_rust::stable_order::{SortKey, stable_order_exec};
use know_rust::vocabulary::{core_crate_exec, core_vocabulary};

fn s(x: &str) -> Option<String> {
    Some(x.to_string())
}

fn rec() -> FactRecord {
    FactRecord {
        name: None,
        crate_name: None,
        file: None,
        line: None,
        end_line: None,
        cfg_gated: false,
        kind: None,
        trait_name: None,
        target_type: None,
        brace_depth: None,
        arg_idents: vec![],
        reexport: false,
        path: None,
        outer: None,
        inner: None,
        doc: None,
    }
}

fn at(file: &str, line: i64) -> FactRecord {
    FactRecord { file: s(file), line: Some(line), ..rec() }
}

fn empty_facts() -> InstanceFacts {
    InstanceFacts {
        impls: vec![],
        traits: vec![],
        derives: vec![],
        macros: vec![],
        types: vec![],
        type_usages: vec![],
        example_type_usages: vec![],
        ast_method_refs: vec![],
    }
}

#[test]
fn spans_render_file_line_and_ranges() {
    assert_eq!(span_basic(&at("src/a.rs", 12)), "src/a.rs:12");
    assert_eq!(span_basic(&rec()), "?:?");
    assert_eq!(span_basic(&at("src/a.rs", -4)), "src/a.rs:?");
    assert_eq!(span(&FactRecord { end_line: Some(20), ..at("src/a.rs", 12) }), "src/a.rs:12-20");
    assert_eq!(span(&FactRecord { end_line: Some(12), ..at("src/a.rs", 12) }), "src/a.rs:12");
    assert_eq!(span(&FactRecord { end_line: Some(-3), ..rec() }), "?:?--3");
}

#[test]
fn stable_order_keeps_ties_in_place() {
    let k = |n: i128, a: &str| SortKey { num: n, first: a.to_string(), second: String::new(), tail: 0 };
    let keys = vec![k(0, "b"), k(0, "a"), k(-1, "z"), k(0, "a")];
    assert_eq!(stable_order_exec(&keys), vec![2, 1, 3, 0]);
}

#[test]
fn trait_seed_prefers_impls_ordered_by_type() {
    let mut f = empty_facts();
    f.impls = vec![
        FactRecord { trait_name: s("Render"), target_type: s("Zed"), ..at("src/z.rs", 3) },
        FactRecord { trait_name: s("Render"), target_type: s("Alpha"), end_line: Some(9), ..at("src/a.rs", 5) },
        FactRecord { trait_name: s("Render"), target_type: s("Beta"), cfg_gated: true, ..at("src/b.rs", 1) },
        FactRecord { trait_name: s("Other"), target_type: s("Alpha"), ..at("src/o.rs", 1) },
    ];
    f.traits = vec![FactRecord { name: s("Render"), ..at("src/t.rs", 2) }];
    let (first, spans) = instance_for_kind(&Pattern::traits("Render"), &f);
    assert_eq!(first.unwrap().target_type.as_deref(), Some("Alpha"));
    assert_eq!(spans, vec!["src/a.rs:5-9".to_string(), "src/z.rs:3".to_string()]);
    let (first, spans) = instance_for_kind(&Pattern::traits("Lonely"), &f);
    assert!(first.is_none());
    assert!(spans.is_empty());
    f.traits.push(FactRecord { name: s("Lonely"), end_line: Some(8), ..at("src/l.rs", 4) });
    let (first, spans) = instance_for_kind(&Pattern::traits("Lonely"), &f);
    assert_eq!(first.unwrap().file.as_deref(), Some("src/l.rs"));
    assert_eq!(spans, vec!["src/l.rs:4".to_string()]);
}

#[test]
fn function_and_global_seeds() {
    let mut f = empty_facts();
    f.ast_method_refs = vec![
        FactRecord { outer: s("World"), inner: s("update"), ..at("src/w.rs", 7) },
        FactRecord { outer: s("Color"), inner: s("RED"), ..at("src/c.rs", 2) },
    ];
    f.example_type_usages = vec![FactRecord { name: s("World::new"), ..at("examples/demo.rs", 3) }];
    let (_, spans) = instance_for_kind(&Pattern::impl_fn("_", "update"), &f);
    assert_eq!(spans, vec!["src/w.rs:7".to_string()]);
    let (_, spans) = instance_for_kind(&Pattern::impl_fn("World", "new"), &f);
    assert_eq!(spans, vec!["examples/demo.rs:3".to_string()]);
    let (_, spans) = instance_for_kind(&Pattern::globals("Color::RED"), &f);
    assert_eq!(spans, vec!["src/c.rs:2".to_string()]);
    let (first, _) = instance_for_kind(&Pattern::globals("RED"), &f);
    assert!(first.is_none());
    let (_, spans) = instance_for_kind(&Pattern::structure("World"), &f);
    assert_eq!(spans, vec!["examples/demo.rs:3".to_string()]);
}

#[test]
fn core_vocabulary_picks_most_depended_crate_and_ranks_usage() {
    let per_crate = vec![
        ("app".to_string(), vec!["core".to_string(), "util".to_string(), "serde".to_string()]),
        ("util".to_string(), vec!["core".to_string(), "serde".to_string(), "serde".to_string()]),
        ("core".to_string(), vec![]),
    ];
    let types = vec![
        FactRecord { name: s("Value"), crate_name: s("core"), ..at("core/src/value.rs", 1) },
        FactRecord { name: s("Buffer"), crate_name: s("core"), ..at("core/src/buffer.rs", 1) },
        FactRecord { name: s("Test"), crate_name: s("core"), ..at("core/tests/t.rs", 1) },
        FactRecord { name: s("Apple"), crate_name: s("core"), ..at("core/src/apple.rs", 1) },
        FactRecord { name: s("Other"), crate_name: s("util"), ..at("util/src/o.rs", 1) },
    ];
    let traits = vec![FactRecord { name: s("Encode"), crate_name: s("core"), ..at("core/src/enc.rs", 1) }];
    let impls = vec![
        FactRecord { trait_name: s("Encode"), target_type: s("core::Value<T>"), ..rec() },
        FactRecord { trait_name: s("Encode"), target_type: s("Buffer"), ..rec() },
    ];
    let uses = vec![FactRecord { path: s("core::{Value, Buffer, value::Value}"), ..rec() }];
    let v = core_vocabulary(&per_crate, &types, &traits, &impls, &uses);
    assert_eq!(v.core.as_deref(), Some("core"));
    // Value: 1 impl + 2 use idents; Buffer: 1 + 1; Apple: 0
    assert_eq!(v.types, vec![(0, 3), (1, 2), (3, 0)]);
    assert_eq!(v.traits, vec![(0, 2)]);
}

#[test]
fn core_crate_prefers_workspace_crates_and_the_first_on_ties() {
    let deps = |name: &str, ds: &[&str]| (name.to_string(), ds.iter().map(|d| d.to_string()).collect::<Vec<String>>());
    // serde is depended on most, but the workspace crates win; b and a tie, b seen first.
    let crates = vec![deps("app", &["serde", "b", "a"]), deps("cli", &["serde", "a", "b"]), deps("a", &[]), deps("b", &["serde"])];
    assert_eq!(core_crate_exec(&crates).as_deref(), Some("b"));
    let crates = vec![deps("app", &["serde", "tokio", "tokio"]), deps("cli", &["serde"])];
    assert_eq!(core_crate_exec(&crates).as_deref(), Some("serde"));
    let crates = vec![deps("app", &[]), deps("cli", &[])];
    assert_eq!(core_crate_exec(&crates), None);
}

#[test]
fn reference_index_groups_and_sorts() {
    let facts = ReferenceFacts {
        types: vec![
            FactRecord { name: s("Zeta"), kind: s("struct"), crate_name: s("b"), ..at("b/src/lib.rs", 4) },
            FactRecord { name: s("Alpha"), kind: s("enum"), crate_name: s("b"), cfg_gated: true, ..at("b/src/lib.rs", 9) },
        ],
        traits: vec![FactRecord { name: s("Run"), crate_name: s("a"), ..at("a/src/lib.rs", 1) }],
        impls: vec![
            FactRecord { trait_name: None, target_type: s("Zeta"), crate_name: s("b"), ..at("b/src/lib.rs", 20) },
            FactRecord { trait_name: s("Run"), target_type: s("Zeta"), crate_name: s("b"), ..at("b/src/lib.rs", 30) },
        ],
        fns: vec![
            FactRecord { name: s("helper"), crate_name: s("a"), brace_depth: Some(0), ..at("a/src/lib.rs", 5) },
            FactRecord { name: s("inner"), crate_name: s("a"), brace_depth: Some(1), ..at("a/src/lib.rs", 6) },
        ],
        macros: vec![
            FactRecord {
                name: s("register"),
                kind: s("macro_invocation"),
                crate_name: s("a"),
                arg_idents: vec!["X".to_string(), "Y".to_string()],
                ..at("a/src/lib.rs", 8)
            },
            FactRecord { name: s("derive_more"), kind: s("attr_macro"), crate_name: s("a"), ..at("a/src/lib.rs", 2) },
        ],
        uses: vec![
            FactRecord { path: s("crate::x::Y"), reexport: true, crate_name: s("a"), ..at("a/src/lib.rs", 3) },
            FactRecord { path: s("std::fmt"), reexport: false, crate_name: s("a"), ..at("a/src/lib.rs", 1) },
        ],
    };
    let text = render_reference("commit: abc", &facts);
    let expected = [
        "# Reference Index",
        "",
        "Exhaustive, span-anchored. Grep this; do not read it top to bottom. Every entry is",
        "a `file:line` you open in source to verify or extend. Spans the rustdoc overlay",
        "marks null (re-exports, blanket/synthesized/macro-generated impls) are flagged, not",
        "dropped.",
        "",
        "```",
        "commit: abc",
        "```",
        "",
        "## crate: a",
        "### traits",
        "- `Run` - a/src/lib.rs:1",
        "### free functions",
        "- `fn helper` - a/src/lib.rs:5",
        "### macro applications *(expansion unverified without rustdoc overlay)*",
        "- `#[derive_more]` - a/src/lib.rs:2",
        "- `register!(...)` args=[X, Y] - a/src/lib.rs:8",
        "### re-exports *(rustdoc resolves the target; span may be null)*",
        "- `crate::x::Y` - a/src/lib.rs:3",
        "",
        "## crate: b",
        "### types",
        "- `enum Alpha` - b/src/lib.rs:9  *(cfg-gated)*",
        "- `struct Zeta` - b/src/lib.rs:4",
        "### impls",
        "- impl (inherent) `Zeta` - b/src/lib.rs:20",
        "- impl `Run` for `Zeta` - b/src/lib.rs:30",
        "",
    ]
    .join("\n");
    assert_eq!(text, expected);
}

#[test]
fn join_matches_slice_join() {
    let parts = vec!["a".to_string(), "".to_string(), "c".to_string()];
    assert_eq!(join_strings(&parts, ", "), parts.join(", "));
    assert_eq!(join_strings(&vec![], "\n"), "");
}
