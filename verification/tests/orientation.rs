use know_rust::fingerprint::PatternHistogramEntry;
use know_rust::foreign::{CrateNames, ForeignRootSurface, foreign_api_surface};
use know_rust::instances::FactRecord;
use know_rust::orientation::{
    RegionMap, ShapingFacts, WorkspaceUnit, appendix_lines, crate_map_lines, foreign_surface_lines,
    guardrail_lines, seam_spine_lines, shaped_lines, vocabulary_lines,
};
use know_rust::orientation_doc::{
    OrientationSources, OrientationTemplates, classification_tag, defined_uses, is_plain_template, orientation_globals,
    orientation_lines, orientation_text, render_orientation,
};
use know_rust::routing::{ContainerShape, MemberRow, member_lines, render_container_routing};
use know_rust::seams::{DetectedSeam, SeamInventory, SeamSite, detected_seams, macro_defs_index};
use know_rust::vocabulary::CoreVocabulary;

fn s(x: &str) -> Option<String> {
    Some(x.to_string())
}

fn rec() -> FactRecord {
    FactRecord {
        name: None,
        crate_name: None,
        file: None,
        line: None,
        end_line: None,
        cfg_gated: false,
        kind: None,
        trait_name: None,
        target_type: None,
        brace_depth: None,
        arg_idents: vec![],
        reexport: false,
        path: None,
        outer: None,
        inner: None,
        doc: None,
    }
}

fn member(name: &str, deps: &[&str]) -> MemberRow {
    MemberRow {
        name: name.to_string(),
        dir: format!("crates/{}", name),
        sloc: 100,
        n_impls: 3,
        n_types: 1,
        deps: deps.iter().map(|d| d.to_string()).collect(),
    }
}

fn macro_def(name: &str, file: &str, line: i64) -> FactRecord {
    FactRecord { name: s(name), file: s(file), line: Some(line), ..rec() }
}

fn reexport(krate: &str, file: &str, path: &str) -> FactRecord {
    FactRecord { crate_name: s(krate), file: s(file), path: s(path), reexport: true, ..rec() }
}

#[test]
fn member_lines_sort_by_name_and_keep_workspace_deps() {
    let rows = vec![member("zeta", &["alpha", "serde"]), member("alpha", &[])];
    let lines = member_lines(&rows);
    assert_eq!(
        lines,
        vec![
            "- **alpha** (crates/alpha/, 100 SLOC, 3 impls, 1 types)".to_string(),
            "- **zeta** (crates/zeta/, 100 SLOC, 3 impls, 1 types) -> depends on: alpha".to_string(),
        ]
    );
}

#[test]
fn container_routing_lists_members_and_histogram() {
    let shape = ContainerShape {
        reasoning: s("flat"),
        central_crate: None,
        central_kind: s("trait"),
        uniqueness_ratio: "0.9".to_string(),
        kind_dominance_dispersion: "0.5".to_string(),
        leaf_ratio: "1.0".to_string(),
        hub_centrality: "0.0".to_string(),
    };
    let hist: Vec<PatternHistogramEntry> = (0..30)
        .map(|i| PatternHistogramEntry { pattern: format!("p{}", i), count: 30 - i })
        .collect();
    let doc = render_container_routing("prov", &shape, &vec![member("b", &["a"]), member("a", &[])], &hist);
    assert!(doc.starts_with("# Orientation: Container Workspace\n\n"));
    assert!(doc.contains("```\nprov\n```"));
    assert!(doc.contains("- reasoning: flat\n"));
    assert!(doc.contains("- central_crate: `?` (dominant kind: trait)\n"));
    assert!(doc.contains("- **a** (crates/a/, 100 SLOC, 3 impls, 1 types)\n- **b** (crates/b/, 100 SLOC, 3 impls, 1 types) -> depends on: a\n"));
    assert!(doc.contains("- `p24` - 6\n"));
    assert!(!doc.contains("- `p25` -"));
    assert!(doc.ends_with("- `p24` - 6\n"));
}

#[test]
fn foreign_surface_groups_reexports_by_foreign_root() {
    let crates = vec![CrateNames { name: "my-core".to_string(), lib_name: None }];
    let mods = vec![FactRecord { name: s("inner"), crate_name: s("app"), ..rec() }];
    let uses = vec![
        reexport("app", "src/lib.rs", "serde::{Serialize, Deserialize}"),
        reexport("app", "src/lib.rs", "serde::Serialize"),
        reexport("app", "src/lib.rs", "anyhow"),
        reexport("app", "src/lib.rs", "my_core::Thing"),
        reexport("app", "src/lib.rs", "inner::Local"),
        reexport("app", "src/lib.rs", "crate::x::Y"),
        reexport("app", "tests/t.rs", "tokio::spawn"),
        FactRecord { reexport: false, ..reexport("app", "src/lib.rs", "rand::Rng") },
    ];
    let surface = foreign_api_surface(&crates, &mods, &uses);
    let view: Vec<(String, bool, Vec<String>)> =
        surface.iter().map(|e| (e.root.clone(), e.namespace, e.leaves.clone())).collect();
    assert_eq!(
        view,
        vec![
            ("anyhow".to_string(), true, vec![]),
            ("serde".to_string(), false, vec!["Deserialize".to_string(), "Serialize".to_string()]),
        ]
    );
}

#[test]
fn macro_index_dedupes_and_sorts_sites() {
    let defs = vec![
        macro_def("reg", "src/b.rs", 4),
        macro_def("other", "src/a.rs", 1),
        macro_def("reg", "src/a.rs", 9),
        macro_def("reg", "src/b.rs", 4),
        macro_def("reg", "src/a.rs", 2),
        macro_def("", "src/z.rs", 1),
        FactRecord { name: s("bare"), ..rec() },
    ];
    let idx = macro_defs_index(&defs);
    assert_eq!(
        idx,
        vec![
            (
                "reg".to_string(),
                vec![("src/a.rs".to_string(), 2), ("src/a.rs".to_string(), 9), ("src/b.rs".to_string(), 4)]
            ),
            ("other".to_string(), vec![("src/a.rs".to_string(), 1)]),
            ("bare".to_string(), vec![("?".to_string(), -1)]),
        ]
    );
}

#[test]
fn seams_follow_the_inventory() {
    let uses: Vec<FactRecord> = (0..7)
        .map(|i| FactRecord { path: s("std::process::Command"), file: s("src/run.rs"), line: Some(i), ..rec() })
        .chain(std::iter::once(FactRecord { path: s("std::process::Command"), file: s("tests/t.rs"), ..rec() }))
        .collect();
    let macs = vec!["register".to_string(), "plugin".to_string()];
    let defs = vec![macro_def("register", "src/m.rs", 3)];
    let inv = SeamInventory { process_spawn: 1, std_io_stream: 0, ffi: 0, syscall_libc: 2 };
    let seams = detected_seams(&inv, &uses, &macs, &defs, "foreign note");
    assert_eq!(seams.len(), 3);
    assert_eq!(seams[0].title, "process / IPC boundary");
    assert_eq!(seams[0].sites.len(), 5);
    assert_eq!(seams[0].sites[4].line, Some(4));
    assert_eq!(seams[1].title, "macro-mediated registration (register, plugin)");
    assert!(seams[1].description.ends_with(
        " 1 of 2 macros have inline `macro_rules!` definitions in the workspace - see S6 for per-macro detail with definition spans (expansion is statically followable for those)."
    ));
    assert_eq!(seams[2].title, "FFI / syscall boundary");
    assert_eq!(seams[2].description, "foreign note");

    let none = detected_seams(
        &SeamInventory { process_spawn: 0, std_io_stream: 0, ffi: 0, syscall_libc: 0 },
        &uses,
        &vec![],
        &defs,
        "foreign note",
    );
    assert!(none.is_empty());
}

#[test]
fn registration_without_inline_definitions_asks_to_confirm() {
    let seams = detected_seams(
        &SeamInventory { process_spawn: 0, std_io_stream: 0, ffi: 0, syscall_libc: 0 },
        &vec![],
        &vec!["gen".to_string()],
        &vec![],
        "",
    );
    assert_eq!(seams.len(), 1);
    assert!(seams[0]
        .description
        .ends_with(" Confirm the generated items in source or via overlay before relying on the registry."));
}

#[test]
fn shaped_section_lines() {
    let f = ShapingFacts {
        mode: s("trait_centric"),
        histogram_mode: None,
        top_share: s("0.42"),
        shape: s("container"),
        shape_reasoning: None,
        use_label: s("dev_use"),
        use_reasoning: None,
        runner_up: s("enum_centric"),
        notes: vec!["thin".to_string()],
    };
    assert_eq!(
        shaped_lines(&f),
        vec![
            "## How this artifact was shaped".to_string(),
            String::new(),
            "- mode: **trait_centric** (histogram alone: ?, top_share=0.42)".to_string(),
            "- use classification: **dev_use** -- ".to_string(),
            "- **UNRESOLVED (method-selection):** runner-up mode `enum_centric` is within the ambiguity band. Confirm against the histogram below.".to_string(),
            "- note: thin".to_string(),
            String::new(),
        ]
    );
    let g = ShapingFacts { shape: s("layered"), shape_reasoning: s("deep"), use_label: None, runner_up: None, notes: vec![], ..f };
    assert_eq!(shaped_lines(&g)[3], "- structural shape: **layered** -- deep");
    assert_eq!(shaped_lines(&g).len(), 5);
}

#[test]
fn seam_spine_renders_sites_or_absence() {
    let seam = DetectedSeam {
        title: "T".to_string(),
        description: "D".to_string(),
        sites: vec![
            SeamSite { path: s("std::process"), file: None, line: Some(7) },
            SeamSite { path: None, file: s("src/a.rs"), line: None },
        ],
    };
    let lines = seam_spine_lines(&vec![seam]);
    assert_eq!(lines[5], "- **T** - D");
    assert_eq!(lines[6], "    - site: std::process (?:7)");
    assert_eq!(lines[7], "    - site:  (src/a.rs:?)");
    assert_eq!(lines.len(), 11);
    let empty = seam_spine_lines(&vec![]);
    assert!(empty[5].starts_with("- No strong seam markers detected."));
}

#[test]
fn foreign_lines_cap_leaves_at_twenty() {
    let leaves: Vec<String> = (0..23).map(|i| format!("L{:02}", i)).collect();
    let surface = vec![
        ForeignRootSurface { root: "big".to_string(), namespace: true, leaves },
        ForeignRootSurface { root: "ns".to_string(), namespace: true, leaves: vec![] },
    ];
    let lines = foreign_surface_lines(&surface);
    assert_eq!(lines[0], "## 5F. Foreign API surface (re-exported)");
    assert!(lines[4].starts_with("- **`big`** (namespace): L00, L01,"));
    assert!(lines[4].ends_with("L19 (+3 more)"));
    assert_eq!(lines[5], "- **`ns`** (namespace)");
    assert!(foreign_surface_lines(&vec![]).is_empty());
}

#[test]
fn guardrails_cite_definition_sites() {
    let defs: Vec<FactRecord> = (1..=7).map(|i| macro_def("reg", "src/m.rs", i)).collect();
    let idx = macro_defs_index(&defs);
    let lines = guardrail_lines(&vec!["reg".to_string(), "gone".to_string()], &idx, &vec![]);
    assert!(lines[4].starts_with(
        "- **`reg!` registration** - expansion READABLE inline in the workspace at src/m.rs:1, src/m.rs:2, src/m.rs:3, src/m.rs:4, src/m.rs:5 (+ 2 more definition site(s)). Call-site"
    ));
    assert!(lines[5].starts_with("- **`gone!` registration** - expansion not visible to the floor scanner"));
    assert_eq!(lines.len(), 7);
    let none = guardrail_lines(&vec![], &idx, &vec![]);
    assert_eq!(none[4], "- None seeded. Record trace stops here as you hit them.");
}

#[test]
fn vocabulary_lines_show_usage_and_docs() {
    let types = vec![FactRecord {
        name: s("Node"),
        kind: s("struct"),
        file: s("src/n.rs"),
        line: Some(3),
        doc: s(&"x".repeat(130)),
        ..rec()
    }];
    let traits = vec![FactRecord { name: s("Visit"), file: s("src/v.rs"), line: Some(1), ..rec() }];
    let vocab = CoreVocabulary { core: s("core"), types: vec![(0, 1)], traits: vec![(0, 2)] };
    let lines = vocabulary_lines(&vocab, &types, &traits);
    assert!(lines[2].starts_with("Most-depended-on crate: **core** - its public types"));
    assert_eq!(lines[4], "- trait `Visit` - src/v.rs:1  *(2 impls)*  *(why: unverified - no doc)*");
    assert_eq!(lines[5], format!("- `struct Node` - src/n.rs:3  *(1 usage)* - doc: {}", "x".repeat(120)));
    assert_eq!(lines.len(), 7);
}

#[test]
fn crate_map_clusters_and_units() {
    let members = vec![
        member("app_core", &[]),
        member("app_cli", &["app_core"]),
        member("app_web", &[]),
        member("solo", &[]),
    ];
    let units = vec![
        WorkspaceUnit { key: "vendor/x".to_string(), kind: s("submodule"), members: 2, populated: false, url: s("u"), rev: None },
        WorkspaceUnit { key: ".".to_string(), kind: s("host"), members: 4, populated: true, url: None, rev: None },
    ];
    let m = RegionMap {
        n_components: 2,
        n_roots: 1,
        components: vec![vec!["app_core".to_string(), "app_cli".to_string()], vec!["solo".to_string()]],
        units,
        members,
        cluster_threshold: 3,
        cluster_min_size: 2,
    };
    let lines = crate_map_lines(&m);
    assert!(lines[2].starts_with("**Regional** - 2 disjoint component(s), 1 workspace root(s)."));
    assert_eq!(lines[4], "- region 1: app_core, app_cli");
    assert_eq!(lines[5], "- region 2: solo");
    assert_eq!(lines[8], "- `.` - host workspace (4 members)");
    assert_eq!(lines[9], "- `vendor/x` - vendored submodule u @ ? (source not populated in this clone; not scanned)");
    assert_eq!(lines[11], "### 1.1 Crate clusters (by name prefix)");
    assert_eq!(lines[15], "- **`app-*`** (3 crates): app_cli, app_core, app_web");
    assert_eq!(lines[16], "- **Other** (1 crates): solo");
    assert_eq!(lines[18], "### 1.2 Per-crate detail");
    assert_eq!(lines[20], "- **app_cli** (crates/app_cli/, 100 SLOC, 3 impls, 1 types) -> depends on: app_core");
    assert!(lines[lines.len() - 2].contains("describe each crate cluster (S1.1)"));

    let single = RegionMap { n_components: 1, components: vec![], units: vec![], cluster_threshold: 40, ..m };
    let lines = crate_map_lines(&single);
    assert_eq!(lines[2], "Single connected component. Crates and their internal dependencies:");
    assert_eq!(lines[4], "- **app_cli** (crates/app_cli/, 100 SLOC, 3 impls, 1 types) -> depends on: app_core");
    assert!(lines[lines.len() - 2].contains("describe the role of the core crates"));
}

#[test]
fn appendix_shows_first_twenty_five_rows() {
    let hist: Vec<PatternHistogramEntry> =
        (0..26).map(|i| PatternHistogramEntry { pattern: format!("p{}", i), count: i }).collect();
    let lines = appendix_lines(&hist);
    assert_eq!(lines.len(), 28);
    assert_eq!(lines[2], "- `p0` - 0");
    assert_eq!(lines[26], "- `p24` - 24");
}

fn plain_shape(label: Option<String>) -> ShapingFacts {
    ShapingFacts {
        mode: s("trait_centric"),
        histogram_mode: None,
        top_share: None,
        shape: None,
        shape_reasoning: None,
        use_label: label,
        use_reasoning: None,
        runner_up: None,
        notes: vec![],
    }
}

fn sources(label: Option<String>) -> OrientationSources {
    OrientationSources {
        shape: plain_shape(label),
        region: RegionMap {
            n_components: 1,
            n_roots: 1,
            components: vec![],
            units: vec![],
            members: vec![member("alpha", &[])],
            cluster_threshold: 30,
            cluster_min_size: 3,
        },
        dep_lists: vec![],
        types: vec![],
        traits: vec![],
        impls: vec![],
        uses: vec![reexport("alpha", "alpha/src/lib.rs", "serde::Serialize")],
        mods: vec![],
        macro_defs: vec![],
        registration_macros: vec![],
        inventory: SeamInventory { process_spawn: 0, std_io_stream: 0, ffi: 0, syscall_libc: 0 },
        crate_names: vec![CrateNames { name: "alpha".to_string(), lib_name: None }],
        histogram: vec![PatternHistogramEntry { pattern: "traits:Render".to_string(), count: 3 }],
    }
}

#[test]
fn orientation_document_assembles_sections_in_order() {
    let text = orientation_text("# Orientation\nprov\n\n", "## 4. Data flow\n", "guide\n", sources(s("dev_use")), "ffi");
    let lines: Vec<&str> = text.split('\n').collect();
    assert_eq!(lines[0], "# Orientation");
    assert_eq!(lines[1], "prov");
    assert_eq!(lines[2], "");
    assert_eq!(lines[3], "## How this artifact was shaped");
    let pos = |h: &str| lines.iter().position(|l| *l == h).unwrap();
    assert!(pos("## 1. Crate / region map") < pos("## 2. Core type vocabulary"));
    assert!(pos("## 2. Core type vocabulary") < pos("## 3. Seam-spine"));
    assert!(pos("## 3. Seam-spine") < pos("## 4. Data flow"));
    assert!(pos("## 4. Data flow") < pos("## 5F. Foreign API surface (re-exported)"));
    assert!(pos("## 5F. Foreign API surface (re-exported)") < pos("## 6. UNRESOLVED guardrails"));
    assert!(pos("## 6. UNRESOLVED guardrails") < pos("guide"));
    assert!(pos("guide") < pos("## Appendix: full pattern histogram"));
    // The same document, line by line.
    let joined = orientation_lines("# Orientation\nprov\n\n", "## 4. Data flow\n", "guide\n", sources(s("dev_use")), "ffi").join("\n");
    assert_eq!(joined, text);
}

#[test]
fn orientation_renders_prompts_with_liquid() {
    let templates = OrientationTemplates {
        header: "# Orientation\n{{ provenance }}\n".to_string(),
        s4_dataflow: "## 4. Data flow\n".to_string(),
        s7_authoring: "{{ classification_tag }}guide".to_string(),
    };
    let doc = render_orientation(&templates, "from git", sources(s("dev_use")), "ffi").unwrap();
    assert!(doc.starts_with("# Orientation\nfrom git\n\n## How this artifact was shaped"));
    assert!(doc.contains("\nWorkspace classification: **dev_use**. guide\n"));
    let bad = OrientationTemplates { header: "{% if %}".to_string(), ..templates };
    assert!(render_orientation(&bad, "p", sources(None), "ffi").is_none());
}

#[test]
fn classification_tag_and_readable_uses() {
    assert_eq!(classification_tag(&s("end_use")), "Workspace classification: **end_use**. ");
    assert_eq!(classification_tag(&None), "");
    let kept = defined_uses(vec![rec(), reexport("a", "a/src/lib.rs", "serde::Serialize")]);
    assert_eq!(kept.len(), 2);
}

#[test]
fn templates_outside_the_plain_fragment_are_refused() {
    assert!(is_plain_template("# Orientation\n{{ provenance }}\n"));
    assert!(is_plain_template("version 123456789012345678"));
    assert!(!is_plain_template("{{ 99999999999999999999 }}"));
    assert!(!is_plain_template("{{ provenance | upcase }}"));
    assert!(!is_plain_template("{% if x %}y{% endif %}"));
    assert!(!is_plain_template("{{ (1..3) }}"));
    let templates = OrientationTemplates {
        header: "{{ 99999999999999999999 }}".to_string(),
        s4_dataflow: String::new(),
        s7_authoring: String::new(),
    };
    assert!(render_orientation(&templates, "p", sources(None), "ffi").is_none());
}

#[test]
fn orientation_globals_name_provenance_and_tag() {
    let (h, s7) = orientation_globals("from git", &s("end_use"));
    assert_eq!(h, vec![("provenance".to_string(), "from git".to_string())]);
    assert_eq!(
        s7,
        vec![("classification_tag".to_string(), "Workspace classification: **end_use**. ".to_string())]
    );
    let (_, none) = orientation_globals("x", &None);
    assert_eq!(none, vec![("classification_tag".to_string(), String::new())]);
}
