//! The plain records of a workspace fingerprint: per-crate metadata, totals,
//! histogram rows and workspace units.

use vstd::prelude::*;
use crate::picks::SubForm;
use crate::resolution::opt_view;

verus! {

/// Per-crate metadata captured from cargo: workspace-relative directory,
/// dependency list, bin/lib presence, package keywords / categories /
/// description, version, the `[lib]` rename when it differs from the
/// package name, the dependency renames as (binding, package) pairs, and the
/// unit key the package belongs to.
#[derive(Debug, Clone, Default)]
pub struct CrateInfo {
    pub dir: String,
    pub deps: Vec<String>,
    pub has_bin: bool,
    pub has_lib: bool,
    pub keywords: Vec<String>,
    pub categories: Vec<String>,
    pub description: String,
    pub version: String,
    pub lib_name: Option<String>,
    pub renames: Vec<(String, String)>,
    pub unit: String,
}

/// One `pattern_histogram` row: the `kind:name` pattern string and its raw
/// count.
#[derive(Debug, Clone)]
pub struct PatternHistogramEntry {
    pub pattern: String,
    pub count: usize,
}

/// The fingerprint's `totals` block: workspace-wide crate / sloc / impl /
/// type / trait / fn counts plus the number of example `.rs` files.
#[derive(Debug, Clone)]
pub struct Totals {
    pub crates: usize,
    pub sloc: usize,
    pub impls: usize,
    pub types: usize,
    pub traits: usize,
    pub fns: usize,
    pub example_rs_files: usize,
}

/// A unit's provenance: the kind token (`host` / `submodule` / `in_repo`)
/// plus the submodule URL and revision when known.
#[derive(Debug, Clone)]
pub struct UnitProvenanceWire {
    pub kind: String,
    pub url: Option<String>,
    pub rev: Option<String>,
}

/// One workspace unit: repo-relative root dir, provenance, member package
/// names, and whether the unit's source is populated in this clone.
#[derive(Debug, Clone)]
pub struct WorkspaceUnitFingerprint {
    pub root_dir: String,
    pub provenance: UnitProvenanceWire,
    pub members: Vec<String>,
    pub populated: bool,
}

/// The counting signals of one pattern's metrics row: the defining crate
/// (`None` when external), intra- and inter-crate usage counts, whether the
/// declaration is public, the curated example count, the form
/// sub-classification, and the example evidence: files counted at weight
/// one, and test and bench files that count at the configured test and
/// bench weights. The weighted example count and the inter ratio are
/// floating-point and are computed by the program from these.
#[derive(Debug, Clone)]
pub struct PatternMetric {
    pub defining_crate: Option<String>,
    pub intra_count: usize,
    pub inter_count: usize,
    pub is_pub: bool,
    pub curated_example_count: usize,
    pub sub_form: Option<SubForm>,
    pub example_files: usize,
    pub example_test_files: usize,
    pub example_bench_files: usize,
}

/// The value of a metrics row's counting signals.
pub ghost struct MetricView {
    pub defining_crate: Option<Seq<char>>,
    pub intra: nat,
    pub inter: nat,
    pub is_pub: bool,
    pub curated: nat,
    pub sub_form: Option<SubForm>,
    pub evidence: (nat, nat, nat),
}

impl View for PatternMetric {
    type V = MetricView;

    open spec fn view(&self) -> MetricView {
        MetricView {
            defining_crate: opt_view(self.defining_crate),
            intra: self.intra_count as nat,
            inter: self.inter_count as nat,
            is_pub: self.is_pub,
            curated: self.curated_example_count as nat,
            sub_form: self.sub_form,
            evidence: (self.example_files as nat, self.example_test_files as nat, self.example_bench_files as nat),
        }
    }
}

} // verus!
