use know_rust::config::{FiltersConfig, default_pattern_skip_substrings};
use know_rust::decl_api::{GlobBinding, SoftBinding, mint_pair_decision, mint_type_decision, public_chains_for};
use know_rust::modules::{DeclCandidate, ModIndex};
use know_rust::pattern::Pattern;

fn v(xs: &[&str]) -> Vec<String> {
    xs.iter().map(|x| x.to_string()).collect()
}

fn filters() -> FiltersConfig {
    FiltersConfig {
        method_ref_outer_skip: vec![],
        method_ref_inner_skip: vec![],
        excluded_dir_segments: vec![],
        pattern_skip_substrings: default_pattern_skip_substrings(),
    }
}

#[test]
fn reexport_hops_pierce_private_sites() {
    let decl = DeclCandidate {
        krate: "tokio".to_string(),
        name: "copy".to_string(),
        chain: v(&["io", "util", "copy"]),
        hard_public: false,
    };
    let bindings = vec![(
        ("tokio".to_string(), "copy".to_string()),
        vec![
            SoftBinding { chain: v(&["io", "util"]), source_parent: Some("copy".to_string()), site_public: false, site_relative: true },
            SoftBinding { chain: v(&["io"]), source_parent: Some("util".to_string()), site_public: true, site_relative: true },
        ],
    )];
    let mods = ModIndex { vis: vec![] };
    let chains = public_chains_for(&decl, &vec![], &bindings, &vec![], &mods);
    assert_eq!(chains, vec![v(&["io"])]);

    let mint = mint_pair_decision(&chains, &decl.chain, "tokio", false, "copy", &vec![], &filters());
    assert_eq!(mint, Some((Pattern::impl_fn("io", "copy"), v(&["copy"]))));
    let known = v(&["implementation_functions:io::copy"]);
    let again = mint_pair_decision(&chains, &decl.chain, "tokio", true, "COPY", &known, &filters());
    assert_eq!(again, Some((Pattern::globals("io::COPY"), v(&["copy"]))));
    assert_eq!(mint_pair_decision(&vec![], &decl.chain, "tokio", false, "copy", &vec![], &filters()), None);
    assert_eq!(mint_pair_decision(&chains, &decl.chain, "tokio", false, "test_x", &vec![], &filters()), None);
    assert_eq!(mint_pair_decision(&vec![vec![]], &vec![], "tokio", false, "copy", &vec![], &filters()), Some((Pattern::impl_fn("tokio", "copy"), vec![])));
}

#[test]
fn glob_splices_lift_items_of_private_modules() {
    let decl = DeclCandidate {
        krate: "bevy_ecs".to_string(),
        name: "Write".to_string(),
        chain: v(&["system", "system_param"]),
        hard_public: false,
    };
    let globs = vec![GlobBinding {
        krate: "bevy_ecs".to_string(),
        chain: v(&["system"]),
        parent: "system_param".to_string(),
        site_public: true,
    }];
    let mods = ModIndex {
        vis: vec![
            (("bevy_ecs".to_string(), "system".to_string()), (true, false)),
            (("bevy_ecs".to_string(), "system::system_param".to_string()), (false, false)),
        ],
    };
    let chains = public_chains_for(&decl, &vec![], &vec![], &globs, &mods);
    assert_eq!(chains, vec![v(&["system"])]);
    assert!(mint_type_decision(&Pattern::structure("Write"), &decl, &vec![], &vec![], &globs, &mods, &vec![], &filters()));
    assert!(!mint_type_decision(
        &Pattern::structure("Write"),
        &decl,
        &vec![],
        &vec![],
        &globs,
        &mods,
        &v(&["structure:Write"]),
        &filters()
    ));
    assert!(!mint_type_decision(&Pattern::structure("Write"), &decl, &vec![], &vec![], &vec![], &mods, &vec![], &filters()));
}
