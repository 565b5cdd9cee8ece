use know_rust::overlap::{GroundTruthEntry, PicksDict, score_counts};

fn v(xs: &[&str]) -> Vec<String> {
    xs.iter().map(|x| x.to_string()).collect()
}

#[test]
fn overlap_counts_distinct_picks_and_matches() {
    let picks = PicksDict {
        architecture: v(&["traits:Plugin", "structure:App"]),
        public: v(&["structure:App"]),
        inter_crate: v(&["traits:System"]),
        internals: vec![],
        intra_crate: v(&["traits:Plugin"]),
        inner_crate: vec![],
    };
    let gt = vec![
        GroundTruthEntry { label: "plugins".to_string(), aliases: v(&["Plugin"]) },
        GroundTruthEntry { label: "world".to_string(), aliases: v(&["World"]) },
        GroundTruthEntry { label: "app".to_string(), aliases: v(&["structure:App"]) },
    ];
    let c = score_counts(&picks, &gt);
    assert_eq!(c.n_total_picks_union, 3);
    assert_eq!(c.n_ground_truth, 3);
    assert_eq!(c.n_matched, 2);
    assert_eq!(c.matches[0].matched_picks, v(&["traits:Plugin"]));
    assert!(!c.matches[1].matched);
}
