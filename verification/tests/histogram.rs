use indexmap::IndexMap;
use know_rust::histogram::{
    pattern_histogram, pattern_histogram_checked, rank_counts, DeriveFact, HistogramFacts, ImplFact, MacroFact,
    TypeUsageFact,
};

fn counted(v: &[(&str, usize)]) -> Vec<(String, usize)> {
    v.iter().map(|(k, n)| (k.to_string(), *n)).collect()
}

#[test]
fn histogram_counts_and_ranks_patterns() {
    let facts = HistogramFacts {
        impls: vec![
            ImplFact { trait_name: Some("Clone".to_string()), cfg_gated: false },
            ImplFact { trait_name: Some("Clone".to_string()), cfg_gated: false },
            ImplFact { trait_name: Some("Debug".to_string()), cfg_gated: true },
            ImplFact { trait_name: None, cfg_gated: false },
        ],
        derives: vec![DeriveFact { trait_name: Some("Clone".to_string()) }, DeriveFact { trait_name: None }],
        macros: vec![
            MacroFact { kind: "attr_macro".to_string(), name: Some("test".to_string()), arg_count: 0 },
            MacroFact { kind: "macro_invocation".to_string(), name: Some("register".to_string()), arg_count: 3 },
            MacroFact { kind: "macro_invocation".to_string(), name: Some("register".to_string()), arg_count: 0 },
            MacroFact { kind: "other".to_string(), name: Some("x".to_string()), arg_count: 9 },
            MacroFact { kind: "macro_invocation".to_string(), name: None, arg_count: 9 },
        ],
        type_usages: vec![
            TypeUsageFact { name: Some("World".to_string()) },
            TypeUsageFact { name: Some("World".to_string()) },
            TypeUsageFact { name: None },
        ],
    };
    let mut fns: IndexMap<String, usize> = IndexMap::new();
    fns.insert("core".to_string(), 25);
    fns.insert("tiny".to_string(), 3);
    let (ranked, kinds, reg) = pattern_histogram(&facts, &fns);
    assert_eq!(
        ranked,
        counted(&[
            ("fn_table:core", 25),
            ("reg_macro:register", 4),
            ("trait_impl:Clone", 2),
            ("type_usage:World", 2),
            ("attr_macro:test", 1),
            ("derive:Clone", 1),
        ])
    );
    assert_eq!(
        kinds,
        counted(&[
            ("trait_impl", 2),
            ("derive", 1),
            ("attr_macro", 1),
            ("reg_macro", 4),
            ("type_usage", 2),
            ("fn_table", 25),
        ])
    );
    assert_eq!(reg, counted(&[("register", 2)]));
    assert_eq!(pattern_histogram_checked(&facts, &fns), Some((ranked, kinds, reg)));
    fns.insert("huge".to_string(), usize::MAX);
    assert_eq!(pattern_histogram_checked(&facts, &fns), None);
}

#[test]
fn ranking_breaks_ties_by_key() {
    let r = rank_counts(counted(&[("b", 1), ("a", 1), ("c", 5), ("a2", 5)]));
    assert_eq!(r, counted(&[("a2", 5), ("c", 5), ("a", 1), ("b", 1)]));
}
