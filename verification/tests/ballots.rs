use indexmap::IndexMap;
use know_rust::ballots::{BallotKey, BallotRules, per_crate_ballots};
use know_rust::fingerprint::CrateInfo;
use know_rust::metrics::{ItemDecl, PatternFact, SiteContext, UseFact, build_site_context};
use know_rust::pattern::Pattern;

fn s(x: &str) -> Option<String> {
    Some(x.to_string())
}

fn fact(krate: &str, file: &str) -> PatternFact {
    PatternFact {
        trait_name: None,
        name: None,
        kind: None,
        cfg_gated: false,
        crate_name: s(krate),
        file: s(file),
        qualifier: None,
    }
}

fn key(p: Pattern, defining: &str) -> BallotKey {
    BallotKey { pattern: p, defining_crate: s(defining), adopted: false }
}

fn ctx() -> SiteContext {
    let mut crates: IndexMap<String, CrateInfo> = IndexMap::new();
    crates.insert("engine".to_string(), CrateInfo { dir: "engine".to_string(), has_lib: true, ..CrateInfo::default() });
    crates.insert("demo".to_string(), CrateInfo { dir: "demo".to_string(), has_lib: true, ..CrateInfo::default() });
    crates.insert(
        "app".to_string(),
        CrateInfo { dir: "app".to_string(), has_bin: true, deps: vec!["engine".to_string()], ..CrateInfo::default() },
    );
    let uses = vec![
        UseFact { file: s("app/src/main.rs"), path: s("engine::{Render, Widget}"), crate_name: s("app"), reexport: false },
        UseFact { file: s("app/src/main.rs"), path: s("demo::Toy"), crate_name: s("app"), reexport: false },
    ];
    let types = vec![
        ItemDecl { name: s("Widget"), crate_name: s("engine"), visibility: s("pub"), kind: s("struct") },
        ItemDecl { name: s("Toy"), crate_name: s("demo"), visibility: s("pub"), kind: s("struct") },
    ];
    let traits = vec![ItemDecl { name: s("Render"), crate_name: s("engine"), visibility: s("pub"), kind: s("trait") }];
    build_site_context(&uses, &types, &traits, &vec![], &crates)
}

fn rules() -> BallotRules {
    BallotRules {
        keys: vec![
            key(Pattern::traits("Render"), "engine"),
            key(Pattern::structure("Widget"), "engine"),
            key(Pattern::impl_fn("Widget", "new"), "engine"),
            key(Pattern::structure("Toy"), "demo"),
            key(Pattern::derives("Serialize"), "serde_shim"),
        ],
        scaffolding: vec!["demo".to_string()],
        adopters: vec![],
    }
}

#[test]
fn ballots_count_credited_workspace_sites_per_crate() {
    let impls = vec![
        PatternFact { trait_name: s("Render"), ..fact("app", "app/src/main.rs") },
        PatternFact { trait_name: s("Render"), ..fact("app", "app/src/main.rs") },
        PatternFact { trait_name: s("Render"), cfg_gated: true, ..fact("app", "app/src/main.rs") },
        PatternFact { trait_name: s("Render"), ..fact("engine", "engine/src/lib.rs") },
    ];
    let type_usages = vec![
        PatternFact { name: s("Widget::new"), ..fact("app", "app/src/main.rs") },
        PatternFact { name: s("Toy::make"), ..fact("app", "app/src/main.rs") },
    ];
    let derives = vec![PatternFact { trait_name: s("Unknown"), ..fact("app", "app/src/main.rs") }];
    let ballots = per_crate_ballots(&rules(), &ctx(), &impls, &derives, &type_usages, &vec![]);
    assert_eq!(
        ballots,
        vec![
            (
                "app".to_string(),
                vec![
                    (Pattern::traits("Render"), 2),
                    (Pattern::impl_fn("Widget", "new"), 1),
                    (Pattern::structure("Widget"), 1),
                ]
            ),
            ("engine".to_string(), vec![(Pattern::traits("Render"), 1)]),
        ]
    );
}

#[test]
fn adopted_roots_credit_by_written_qualifier() {
    let mut r = rules();
    r.keys = vec![BallotKey { pattern: Pattern::traits("Log"), defining_crate: s("logcore"), adopted: true }];
    r.adopters = vec![("logcore".to_string(), vec!["log-facade".to_string()])];
    let macros = vec![];
    let type_usages = vec![];
    let derives = vec![];
    let impls = vec![
        PatternFact { trait_name: s("Log"), qualifier: None, ..fact("app", "app/src/lib.rs") },
    ];
    // No qualifier and no import binding for `Log` in the file: no credit.
    let none = per_crate_ballots(&r, &ctx(), &impls, &derives, &type_usages, &macros);
    assert!(none.is_empty());
}
