use indexmap::IndexMap;
use know_rust::adopt_roots::{AdoptFacts, ReexportUse, resolve_adopted_roots};
use know_rust::fingerprint::CrateInfo;

fn reexport(file: &str, krate: &str, path: &str) -> ReexportUse {
    ReexportUse {
        file: Some(file.to_string()),
        crate_name: Some(krate.to_string()),
        path: Some(path.to_string()),
        reexport: true,
        doc_hidden: false,
    }
}

fn workspace() -> IndexMap<String, CrateInfo> {
    let mut crates = IndexMap::new();
    crates.insert("app".to_string(), CrateInfo { dir: "app".to_string(), has_lib: true, ..CrateInfo::default() });
    crates.insert("engine".to_string(), CrateInfo { dir: "engine".to_string(), has_lib: true, ..CrateInfo::default() });
    crates
}

fn lock() -> Vec<(String, Vec<String>)> {
    vec![
        ("glam".to_string(), vec!["0.24.0".to_string()]),
        ("serde-json".to_string(), vec!["1.0.1".to_string(), "1.0.0".to_string()]),
    ]
}

fn checkouts() -> Vec<(String, String)> {
    vec![("glam-0.24.0".to_string(), "/registry/glam-0.24.0".to_string())]
}

#[test]
fn adopted_roots_come_sorted_and_pinned() {
    let mut hidden = reexport("app/src/lib.rs", "app", "rand::Rng");
    hidden.doc_hidden = true;
    let mut plain = reexport("app/src/lib.rs", "app", "anyhow::Error");
    plain.reexport = false;
    let facts = AdoptFacts {
        uses: vec![
            reexport("app/src/lib.rs", "app", "serde_json"),
            reexport("app/src/lib.rs", "app", "mime::Mime"),
            reexport("app/src/lib.rs", "app", "std::time::Duration"),
            reexport("app/src/lib.rs", "app", "engine::Widget"),
            reexport("app/src/lib.rs", "app", "glam::*"),
            reexport("app/src/extra.rs", "app", "mime::{Mime as MediaType}"),
            reexport("app/examples/demo.rs", "app", "tokio::spawn"),
            hidden,
            plain,
        ],
    };
    let roots = resolve_adopted_roots(&facts, &workspace(), &lock(), &checkouts());
    let names: Vec<&str> = roots.iter().map(|r| r.root.as_str()).collect();
    assert_eq!(names, vec!["glam", "mime", "serde_json"]);

    let glam = &roots[0];
    assert_eq!(glam.package, "glam");
    assert_eq!(glam.version, "0.24.0");
    assert_eq!(glam.checkout.as_deref(), Some("/registry/glam-0.24.0"));
    assert_eq!(glam.globs, vec!["".to_string()]);
    assert!(!glam.namespace);
    assert_eq!(glam.sites, 1);

    let mime = &roots[1];
    assert_eq!(mime.sites, 2);
    assert_eq!(
        mime.leaves,
        vec![("Mime".to_string(), "Mime".to_string()), ("Mime".to_string(), "MediaType".to_string())]
    );
    assert_eq!(mime.version, "");
    assert!(mime.versions.is_empty());
    assert_eq!(mime.checkout, None);

    let json = &roots[2];
    assert!(json.namespace);
    assert_eq!(json.package, "serde-json");
    assert_eq!(json.versions, vec!["1.0.1".to_string(), "1.0.0".to_string()]);
    assert_eq!(json.version, "1.0.1");
    assert_eq!(json.checkout, None);
}

#[test]
fn glob_below_the_root_records_its_module() {
    let facts = AdoptFacts { uses: vec![reexport("app/src/lib.rs", "app", "bevy::prelude::*")] };
    let roots = resolve_adopted_roots(&facts, &workspace(), &vec![], &vec![]);
    assert_eq!(roots.len(), 1);
    assert_eq!(roots[0].globs, vec!["prelude".to_string()]);
    assert!(roots[0].leaves.is_empty());
}
