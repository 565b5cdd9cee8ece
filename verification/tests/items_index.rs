use know_rust::instances::FactRecord;
use know_rust::items_index::{ItemFacts, build_items_index};

fn rec(name: &str, file: Option<&str>) -> FactRecord {
    FactRecord {
        name: Some(name.to_string()),
        crate_name: None,
        file: file.map(|f| f.to_string()),
        line: None,
        end_line: None,
        cfg_gated: false,
        kind: None,
        trait_name: None,
        target_type: None,
        brace_depth: None,
        arg_idents: vec![],
        reexport: false,
        path: None,
        outer: None,
        inner: None,
        doc: None,
    }
}

fn names(v: &[FactRecord]) -> Vec<&str> {
    v.iter().map(|r| r.name.as_deref().unwrap()).collect()
}

#[test]
fn items_are_bucketed_by_file() {
    let facts = ItemFacts {
        impls: vec![rec("i1", Some("a.rs")), rec("i2", Some("b.rs")), rec("i3", Some("a.rs"))],
        traits: vec![],
        types: vec![rec("T", Some("c.rs"))],
        fns: vec![],
        uses: vec![rec("u", None)],
        macros: vec![],
        derives: vec![],
        macro_defs: vec![],
        mods: vec![rec("m", Some("b.rs"))],
        type_usages: vec![],
        example_type_usages: vec![],
    };
    let index = build_items_index(facts);
    let keys: Vec<&str> = index.iter().map(|(k, _)| k.as_str()).collect();
    assert_eq!(keys, vec!["a.rs", "b.rs", "c.rs", ""]);
    assert_eq!(names(&index[0].1.impls), vec!["i1", "i3"]);
    assert_eq!(names(&index[1].1.impls), vec!["i2"]);
    assert_eq!(names(&index[1].1.mods), vec!["m"]);
    assert_eq!(names(&index[2].1.types), vec!["T"]);
    assert_eq!(names(&index[3].1.uses), vec!["u"]);
    assert!(index[0].1.types.is_empty() && index[2].1.impls.is_empty());
}
