use know_rust::demand_tiers::{
    DemandedName, bundle_coverage, NameTier, PairTier, TargetSurface, classify_demand, classify_name, classify_pair,
};

fn v(xs: &[&str]) -> Vec<String> {
    xs.iter().map(|x| x.to_string()).collect()
}

fn surface() -> TargetSurface {
    TargetSurface {
        decl_kinds: vec![
            ("Runtime".to_string(), v(&["type"])),
            ("spawn".to_string(), v(&["fn"])),
            ("Blank".to_string(), vec![]),
        ],
        mods: v(&["io"]),
        target_crates: v(&["tokio"]),
        covered: v(&["Runtime", "Handle"]),
        pick_pairs: v(&["tokio::spawn", "Runtime::new", "task::yield_now"]),
        pair_aliases: vec![("task::yield_now".to_string(), v(&["tokio"]))],
        overlay_fn_paths: vec![("yield_now".to_string(), v(&["tokio::task::coop::yield_now", "yield_now"]))],
        foreign_leafs: v(&["Duration"]),
        foreign_ns: v(&["bytes"]),
    }
}

fn name(n: &str, roots: &[&str]) -> DemandedName {
    DemandedName { name: n.to_string(), srcs: v(&["use"]), sites: 2, roots: v(roots) }
}

#[test]
fn name_tiers() {
    let t = surface();
    assert_eq!(classify_name(&t, &name("io", &[])), NameTier::ModNamespace);
    assert_eq!(classify_name(&t, &name("tokio", &[])), NameTier::ModNamespace);
    assert_eq!(classify_name(&t, &name("Runtime", &[])), NameTier::Hit);
    assert_eq!(classify_name(&t, &name("spawn", &["tokio"])), NameTier::Hit);
    assert_eq!(classify_name(&t, &name("yield_now", &["tokio"])), NameTier::Hit);
    assert_eq!(classify_name(&t, &name("yield_now", &["rt"])), NameTier::Miss);
    assert_eq!(classify_name(&t, &name("yield_now", &["coop"])), NameTier::Hit);
}

#[test]
fn foreign_and_missing_names() {
    let t = surface();
    assert_eq!(classify_name(&t, &name("Duration", &[])), NameTier::ForeignReexport);
    assert_eq!(classify_name(&t, &name("Bytes", &["bytes"])), NameTier::ForeignReexport);
    assert_eq!(classify_name(&t, &name("Gone", &["tokio"])), NameTier::Miss);
}

#[test]
fn pair_tiers() {
    let t = surface();
    assert_eq!(classify_pair(&t, "Runtime::new"), PairTier::Exact);
    assert_eq!(classify_pair(&t, "tokio::yield_now"), PairTier::Exact);
    assert_eq!(classify_pair(&t, "coop::yield_now"), PairTier::Exact);
    assert_eq!(classify_pair(&t, "task2::yield_now"), PairTier::Miss);
    assert_eq!(classify_pair(&t, "Handle::current"), PairTier::NameLevel);
    assert_eq!(classify_pair(&t, "tokio::Handle"), PairTier::NameLevel);
    assert_eq!(classify_pair(&t, "bytes::Bytes"), PairTier::ForeignReexport);
    assert_eq!(classify_pair(&t, "Duration::from_secs"), PairTier::ForeignReexport);
    assert_eq!(classify_pair(&t, "Sleep::poll"), PairTier::Miss);
    assert_eq!(classify_pair(&t, "Nothing"), PairTier::Miss);
}

#[test]
fn demand_report_partitions_names_and_pairs() {
    let t = surface();
    let names = vec![name("Blank", &[]), name("Gone", &[]), name("io", &[]), name("Runtime", &[]), name("Duration", &[])];
    let pairs = v(&["Runtime::new", "Handle::current", "bytes::Bytes", "Sleep::poll"]);
    let r = classify_demand(&t, &names, &pairs, vec![("Runtime::new".to_string(), 3)], v(&["tokio::*"]));
    assert_eq!(r.summary.demanded_names, 5);
    assert_eq!(r.hits.len(), 1);
    assert_eq!(r.hits[0].name, "Runtime");
    assert_eq!(r.hits[0].kinds, v(&["type"]));
    assert_eq!(r.hits[0].sites, 2);
    assert_eq!(r.mod_namespace.len(), 1);
    assert_eq!(r.summary.foreign_reexport_count, 1);
    assert_eq!(r.summary.miss_count, 2);
    assert_eq!(r.summary.misses[0].name, "Blank");
    assert_eq!(r.summary.misses[0].kinds, v(&["unknown"]));
    assert_eq!(r.summary.misses[1].kinds, v(&["unknown"]));
    assert_eq!(
        r.summary.hits + r.summary.miss_count + r.summary.mod_namespace_count + r.summary.foreign_reexport_count,
        r.summary.demanded_names
    );
    assert_eq!(r.summary.pairs_total, 4);
    assert_eq!(r.summary.pair_exact, 1);
    assert_eq!(r.pair_name_level, v(&["Handle::current"]));
    assert_eq!(r.summary.pair_foreign, v(&["bytes::Bytes"]));
    assert_eq!(r.summary.pair_misses, v(&["Sleep::poll"]));
    assert_eq!(r.pair_sites, vec![("Runtime::new".to_string(), 3)]);
    assert_eq!(r.summary.globs, v(&["tokio::*"]));
}

#[test]
fn bundle_coverage_collects_pick_and_carry_names() {
    let picks = v(&["traits:Render", "implementation_functions:Runtime::new", "implementation_functions:_::helper", "bogus"]);
    let carries = vec![("structure:Config".to_string(), v(&["Builder", ""])), ("nonsense".to_string(), v(&["Extra"]))];
    let c = bundle_coverage(&picks, &carries);
    let mut pairs = c.pick_pairs.clone();
    pairs.sort();
    assert_eq!(pairs, v(&["Runtime::new", "_::helper"]));
    for n in ["Render", "Runtime", "Config", "Builder", "Extra"] {
        assert!(c.covered.iter().any(|x| x == n), "{} should be covered", n);
    }
    assert!(!c.covered.iter().any(|x| x == "_" || x.is_empty() || x == "helper" || x == "bogus"));
}
