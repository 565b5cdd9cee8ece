use know_rust::package_pick::{resolve_package, PackageVotes};

fn pkgs(list: &[(&str, bool)]) -> Vec<(String, bool)> {
    list.iter().map(|(n, l)| (n.to_string(), *l)).collect()
}

fn voter(name: &str, deps: &[&str]) -> (String, Vec<String>) {
    (name.to_string(), deps.iter().map(|d| d.to_string()).collect())
}

#[test]
fn no_packages_gives_the_request_back() {
    let empty: Vec<(String, bool)> = Vec::new();
    assert_eq!(resolve_package(&empty, Some("core"), None, "repo"), Some("core".to_string()));
    assert_eq!(resolve_package(&empty, None, None, "repo"), None);
}

#[test]
fn requested_package_that_exists_wins() {
    let ps = pkgs(&[("alpha", true), ("beta", true)]);
    let votes = PackageVotes { voters: vec![voter("app", &["alpha"])], scaffolding: vec![] };
    assert_eq!(resolve_package(&ps, Some("beta"), Some(&votes), "alpha"), Some("beta".to_string()));
}

#[test]
fn most_depended_on_package_wins_first_on_ties() {
    let ps = pkgs(&[("core", true), ("facade", true), ("app", false)]);
    let votes = PackageVotes {
        voters: vec![
            voter("app", &["facade", "core", "serde"]),
            voter("facade", &["core"]),
            voter("tool", &["facade"]),
        ],
        scaffolding: vec![],
    };
    // facade: 2, core: 2 -> facade counted first
    assert_eq!(resolve_package(&ps, Some("missing"), Some(&votes), "repo"), Some("facade".to_string()));
}

#[test]
fn scaffolding_votes_do_not_count() {
    let ps = pkgs(&[("core", true), ("facade", true)]);
    let votes = PackageVotes {
        voters: vec![
            voter("example_a", &["facade"]),
            voter("example_b", &["facade"]),
            voter("app", &["core"]),
        ],
        scaffolding: vec!["example_a".to_string(), "example_b".to_string()],
    };
    assert_eq!(resolve_package(&ps, None, Some(&votes), "repo"), Some("core".to_string()));
}

#[test]
fn repository_name_then_lib_prefix_then_hyphens() {
    let ps = pkgs(&[("other", true), ("myrepo", true)]);
    assert_eq!(resolve_package(&ps, None, None, "myrepo"), Some("myrepo".to_string()));
    let ps = pkgs(&[("other", true), ("libmyrepo", true)]);
    assert_eq!(resolve_package(&ps, None, None, "myrepo"), Some("libmyrepo".to_string()));
    let ps = pkgs(&[("other", true), ("my_repo", true)]);
    assert_eq!(resolve_package(&ps, None, None, "my-repo"), Some("my_repo".to_string()));
}

#[test]
fn first_library_package_is_the_fallback() {
    let ps = pkgs(&[("cli", false), ("engine", true), ("extra", true)]);
    assert_eq!(resolve_package(&ps, None, None, "repo"), Some("engine".to_string()));
    let ps = pkgs(&[("cli", false)]);
    assert_eq!(resolve_package(&ps, Some("x"), None, "repo"), Some("x".to_string()));
    assert_eq!(resolve_package(&ps, None, None, "repo"), None);
}
