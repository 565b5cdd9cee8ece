use know_rust::ballots::BallotKey;
use know_rust::pattern::Pattern;
use know_rust::pick_caps::{bucket_and_cap, demand_sites, per_crate_pool};
use know_rust::weights::{TargetWeights, WeightCell};
use know_rust::picks::PickGroup;

fn counts() -> Vec<(Pattern, usize)> {
    vec![
        (Pattern::traits("A"), 3),
        (Pattern::traits("B"), 5),
        (Pattern::structure("X"), 5),
        (Pattern::traits("C"), 5),
        (Pattern::structure("Y"), 1),
    ]
}

#[test]
fn caps_keep_each_groups_best_in_rank_order() {
    let caps = vec![(PickGroup::Traits, 2), (PickGroup::Structure, 1)];
    let kept = bucket_and_cap(&counts(), &caps);
    assert_eq!(
        kept,
        vec![(Pattern::structure("X"), 5), (Pattern::traits("B"), 5), (Pattern::traits("C"), 5)]
    );
    let none = bucket_and_cap(&counts(), &vec![]);
    assert!(none.is_empty());
}

#[test]
fn pools_split_by_defining_crate() {
    let key = |p: Pattern, d: Option<&str>| BallotKey { pattern: p, defining_crate: d.map(String::from), adopted: false };
    let keys = vec![
        key(Pattern::traits("B"), Some("core")),
        key(Pattern::structure("X"), Some("app")),
        key(Pattern::traits("C"), None),
        key(Pattern::traits("A"), Some("core")),
    ];
    let intra = per_crate_pool(&keys, &vec![Pattern::traits("A")], "app", false, &counts());
    assert_eq!(intra, vec![(Pattern::traits("B"), 5)]);
    let inner = per_crate_pool(&keys, &vec![], "app", true, &counts());
    assert_eq!(inner, vec![(Pattern::structure("X"), 5)]);
}

#[test]
fn demand_sites_sum_pair_and_alias_spellings() {
    let cell = |c: usize, s: usize| WeightCell { consumers: c, sites: s };
    let tw = TargetWeights {
        sources: vec![],
        names: vec![("spawn".to_string(), cell(1, 4)), ("Runtime".to_string(), cell(2, 7))],
        pairs: vec![("tokio::spawn".to_string(), cell(1, 3)), ("rt::spawn".to_string(), cell(1, 2))],
    };
    let aliases = vec![("tokio::spawn".to_string(), vec!["rt".to_string(), "tk".to_string()])];
    assert_eq!(demand_sites(&Pattern::impl_fn("tokio", "spawn"), true, &tw, &aliases), Some(9));
    assert_eq!(demand_sites(&Pattern::impl_fn("tokio", "spawn"), false, &tw, &aliases), Some(5));
    assert_eq!(demand_sites(&Pattern::impl_fn("_", "spawn"), true, &tw, &aliases), None);
    assert_eq!(demand_sites(&Pattern::globals("tokio::spawn"), true, &tw, &aliases), Some(9));
    assert_eq!(demand_sites(&Pattern::globals("NAME"), true, &tw, &aliases), None);
    assert_eq!(demand_sites(&Pattern::structure("Runtime"), false, &tw, &aliases), Some(7));
    assert_eq!(demand_sites(&Pattern::derives("Runtime"), false, &tw, &aliases), None);
}
