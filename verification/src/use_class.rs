//! The four-bucket use classification: scaffolding crates are set aside,
//! every other crate is labelled `dev_use`, `end_use`, `end_with_dev_use` or
//! `dev_with_end_use`, and the workspace takes a label from the bucket
//! counts.

use vstd::prelude::*;
use indexmap::IndexMap;
use crate::config::ClassificationConfig;
use crate::crate_map::{crate_at, crate_count, crate_entries, metric_at, metric_count, metric_entries};
use crate::fingerprint::{CrateInfo, PatternMetric};
use crate::numfmt::{decimal_view, push_decimal};
use crate::resolution::{opt_view, strings_view};
use crate::sorting::{sort_strings, sorted_strings};
use crate::text::{
    any_contained, any_equal, any_prefix, contains_any, equals_any, push_str, starts_with_any, str_eq,
};

verus! {

/// What `str::to_lowercase` gives for `s`.
pub uninterp spec fn lowercase(s: Seq<char>) -> Seq<char>;

/// `str::to_lowercase`: the lowercase mapping of `s`, named by `lowercase`.
#[verifier::external_body]
fn to_lowercase(s: &str) -> (r: String)
    ensures
        r@ == lowercase(s@),
{
    s.to_lowercase()
}

/// Directory fragments that mark example / bench / fuzz / test / tooling
/// crates.
pub const SCAFFOLD_PATH_SEGMENTS: [&'static str; 24] = [
    "/examples/",
    "examples/",
    "/example/",
    "example/",
    "/benches/",
    "benches/",
    "/bench/",
    "bench/",
    "/fuzz/",
    "fuzz/",
    "/tests/",
    "tests/",
    "/test/",
    "test/",
    "/xtask/",
    "xtask/",
    "/tools/",
    "tools/",
    "/ci/",
    "ci/",
    "/scripts/",
    "scripts/",
    "/build/",
    "build/",
];

/// Whole directories that are scaffolding.
pub const SCAFFOLD_BARE_DIRS: [&'static str; 11] = [
    "xtask",
    "ci",
    "bogo",
    "build",
    "tools",
    "tests",
    "scripts",
    "examples",
    "benches",
    "bench",
    "fuzz",
];

/// Name fragments that mark scaffolding crates.
pub const SCAFFOLD_NAME_INFIXES: [&'static str; 16] = [
    "_example",
    "_demo",
    "_fuzz",
    "_test",
    "_tests",
    "_bench",
    "_benches",
    "_xtask",
    "-example",
    "-demo",
    "-fuzz",
    "-test",
    "-tests",
    "-bench",
    "-benches",
    "-xtask",
];

/// Name prefixes that mark scaffolding crates.
pub const SCAFFOLD_NAME_PREFIXES: [&'static str; 19] = [
    "example_",
    "example-",
    "demo_",
    "demo-",
    "build_",
    "build-",
    "build_templated",
    "ci_",
    "ci-",
    "tests-",
    "test-",
    "bench-",
    "bench_",
    "fuzz_",
    "fuzz-",
    "rustls-bench",
    "rustls-ci-bench",
    "export-content",
    "export_content",
];

/// Whole names that are scaffolding.
pub const SCAFFOLD_BARE_NAMES: [&'static str; 8] = [
    "xtask",
    "ci",
    "bogo",
    "build",
    "tools",
    "example-showcase",
    "export-content",
    "tests-integration",
];

/// The scaffolding rule on a lowercased crate name `nm` and directory `d`:
/// a scaffolding directory fragment or bare directory, or a scaffolding name
/// fragment, prefix or bare name.
pub open spec fn scaffolding_rule(nm: Seq<char>, d: Seq<char>) -> bool {
    any_contained(d, SCAFFOLD_PATH_SEGMENTS@) || any_equal(d, SCAFFOLD_BARE_DIRS@) || any_contained(
        nm,
        SCAFFOLD_NAME_INFIXES@,
    ) || any_prefix(nm, SCAFFOLD_NAME_PREFIXES@) || any_equal(nm, SCAFFOLD_BARE_NAMES@)
}

/// The scaffolding rule on an already lowercased name and directory.
pub fn is_scaffolding_lowered(nm: &str, d: &str) -> (r: bool)
    ensures
        r == scaffolding_rule(nm@, d@),
{
    contains_any(d, &SCAFFOLD_PATH_SEGMENTS) || equals_any(d, &SCAFFOLD_BARE_DIRS) || contains_any(
        nm,
        &SCAFFOLD_NAME_INFIXES,
    ) || starts_with_any(nm, &SCAFFOLD_NAME_PREFIXES) || equals_any(nm, &SCAFFOLD_BARE_NAMES)
}

/// Whether a crate is example / bench / fuzz / test / tooling scaffolding,
/// judged on its lowercased name and directory.
pub fn is_scaffolding(name: &str, info: &CrateInfo) -> (r: bool)
    ensures
        r == scaffolding_rule(lowercase(name@), lowercase(info.dir@)),
{
    let d = to_lowercase(info.dir.as_str());
    let nm = to_lowercase(name);
    is_scaffolding_lowered(nm.as_str(), d.as_str())
}

/// The inter-crate count of the public patterns `name` defines.
pub open spec fn pub_inter_total(ms: Seq<(Seq<char>, PatternMetric)>, name: Seq<char>) -> nat
    decreases ms.len(),
{
    if ms.len() == 0 {
        0
    } else {
        pub_inter_total(ms.drop_last(), name) + if ms.last().1.is_pub && opt_view(
            ms.last().1.defining_crate,
        ) == Some(name) {
            ms.last().1.inter_count as nat
        } else {
            0nat
        }
    }
}

/// The inter-crate count of every pattern.
pub open spec fn inter_total(ms: Seq<(Seq<char>, PatternMetric)>) -> nat
    decreases ms.len(),
{
    if ms.len() == 0 {
        0
    } else {
        inter_total(ms.drop_last()) + ms.last().1.inter_count as nat
    }
}

proof fn lemma_pub_total_bounded(ms: Seq<(Seq<char>, PatternMetric)>, name: Seq<char>, i: int)
    requires
        0 <= i <= ms.len(),
    ensures
        pub_inter_total(ms.take(i), name) <= inter_total(ms),
    decreases ms.len(),
{
    if i == ms.len() {
        assert(ms.take(i) =~= ms);
        lemma_pub_le_total(ms, name);
    } else {
        assert(ms.drop_last().take(i) =~= ms.take(i));
        lemma_pub_total_bounded(ms.drop_last(), name, i);
    }
}

proof fn lemma_pub_le_total(ms: Seq<(Seq<char>, PatternMetric)>, name: Seq<char>)
    ensures
        pub_inter_total(ms, name) <= inter_total(ms),
    decreases ms.len(),
{
    if ms.len() > 0 {
        lemma_pub_le_total(ms.drop_last(), name);
    }
}

/// The use label of one primary crate: a library without a binary is
/// `dev_use`, a binary without a library `end_use`, neither `dev_use`; with
/// both, `dev_with_end_use` when its public patterns' inter-crate count
/// reaches `threshold`, else `end_with_dev_use`.
pub open spec fn crate_use_label(has_bin: bool, has_lib: bool, pub_inter: nat, threshold: nat) -> Seq<
    char,
> {
    if has_lib && !has_bin {
        "dev_use"@
    } else if has_bin && !has_lib {
        "end_use"@
    } else if !has_bin && !has_lib {
        "dev_use"@
    } else if pub_inter >= threshold {
        "dev_with_end_use"@
    } else {
        "end_with_dev_use"@
    }
}

/// Labels one primary crate by its bin/lib presence and, with both, by how
/// much of its public API other crates use.
pub fn classify_crate_use(
    name: &str,
    info: &CrateInfo,
    pattern_metrics: &IndexMap<String, PatternMetric>,
    classification: &ClassificationConfig,
) -> (r: String)
    requires
        inter_total(metric_entries(*pattern_metrics)) <= usize::MAX,
    ensures
        r@ == crate_use_label(
            info.has_bin,
            info.has_lib,
            pub_inter_total(metric_entries(*pattern_metrics), name@),
            classification.dev_with_end_threshold as nat,
        ),
{
    let has_bin = info.has_bin;
    let has_lib = info.has_lib;
    if has_lib && !has_bin {
        return "dev_use".to_owned();
    }
    if has_bin && !has_lib {
        return "end_use".to_owned();
    }
    if !has_bin && !has_lib {
        return "dev_use".to_owned();
    }
    let ghost ms = metric_entries(*pattern_metrics);
    let n = metric_count(pattern_metrics);
    let mut total: usize = 0;
    let mut i: usize = 0;
    while i < n
        invariant
            i <= n == ms.len(),
            ms == metric_entries(*pattern_metrics),
            inter_total(ms) <= usize::MAX,
            total == pub_inter_total(ms.take(i as int), name@),
        decreases n - i,
    {
        let (_, m) = metric_at(pattern_metrics, i).unwrap();
        assert(ms.take(i + 1).drop_last() =~= ms.take(i as int));
        assert(ms.take(i + 1).last() == ms[i as int]);
        proof {
            lemma_pub_total_bounded(ms, name@, i + 1);
        }
        let defines = match &m.defining_crate {
            Some(c) => str_eq(c.as_str(), name),
            None => false,
        };
        if m.is_pub && defines {
            total = total + m.inter_count;
        }
        i = i + 1;
    }
    assert(ms.take(n as int) =~= ms);
    if total >= classification.dev_with_end_threshold {
        "dev_with_end_use".to_owned()
    } else {
        "end_with_dev_use".to_owned()
    }
}

/// The workspace use classification: the workspace label, each primary
/// crate's label in crate order, the bucket counts (`end_use`, `dev_use`,
/// `end_with_dev_use`, `dev_with_end_use`), the scaffolding crates in
/// ascending order, and the reasoning line.
#[derive(Debug, Clone)]
pub struct WorkspaceUseClassification {
    pub workspace: String,
    pub per_crate: Vec<(String, String)>,
    pub buckets: Vec<(String, usize)>,
    pub scaffolding_crates: Vec<String>,
    pub reasoning: String,
}

/// The crates set aside as scaffolding, in crate order.
pub open spec fn scaffolding_of(cs: Seq<(Seq<char>, CrateInfo)>) -> Seq<Seq<char>>
    decreases cs.len(),
{
    if cs.len() == 0 {
        Seq::empty()
    } else if scaffolding_rule(lowercase(cs.last().0), lowercase(cs.last().1.dir@)) {
        scaffolding_of(cs.drop_last()).push(cs.last().0)
    } else {
        scaffolding_of(cs.drop_last())
    }
}

/// The primary crates with their labels, in crate order.
pub open spec fn labels_of(
    cs: Seq<(Seq<char>, CrateInfo)>,
    ms: Seq<(Seq<char>, PatternMetric)>,
    threshold: nat,
) -> Seq<(Seq<char>, Seq<char>)>
    decreases cs.len(),
{
    if cs.len() == 0 {
        Seq::empty()
    } else if scaffolding_rule(lowercase(cs.last().0), lowercase(cs.last().1.dir@)) {
        labels_of(cs.drop_last(), ms, threshold)
    } else {
        labels_of(cs.drop_last(), ms, threshold).push(
            (
                cs.last().0,
                crate_use_label(
                    cs.last().1.has_bin,
                    cs.last().1.has_lib,
                    pub_inter_total(ms, cs.last().0),
                    threshold,
                ),
            ),
        )
    }
}

/// How many labels equal `label`.
pub open spec fn label_count(ls: Seq<(Seq<char>, Seq<char>)>, label: Seq<char>) -> nat
    decreases ls.len(),
{
    if ls.len() == 0 {
        0
    } else {
        label_count(ls.drop_last(), label) + if ls.last().1 == label {
            1nat
        } else {
            0nat
        }
    }
}

/// The workspace label and base reasoning from the bucket counts.
pub open spec fn workspace_verdict(end: nat, dev: nat, ewd: nat, dwe: nat) -> (Seq<char>, Seq<char>) {
    let n = end + dev + ewd + dwe;
    if n == 0 {
        ("dev_use"@, "no primary crates after scaffolding exclusion"@)
    } else if dev == n {
        ("dev_use"@, "all "@ + decimal_view(n) + " primary crates are pure dev_use libraries"@)
    } else if end == n {
        ("end_use"@, "all "@ + decimal_view(n) + " primary crates are pure end_use binaries"@)
    } else if ewd > 0 || end > 0 {
        (
            "end_with_dev_use"@,
            "primary crates: end_use="@ + decimal_view(end) + " end_with_dev_use="@ + decimal_view(ewd)
                + " dev_with_end_use="@ + decimal_view(dwe) + " dev_use="@ + decimal_view(dev)
                + "; the workspace ships an end-user product with the libraries composing it"@,
        )
    } else if dwe > 0 {
        (
            "dev_with_end_use"@,
            "primary crates: dev_use="@ + decimal_view(dev) + " dev_with_end_use="@ + decimal_view(dwe)
                + "; the workspace's primary deliverable is a library with a CLI auxiliary (gitoxide pattern)"@,
        )
    } else {
        ("dev_use"@, "fallback default"@)
    }
}

/// The note on excluded scaffolding crates appended to the reasoning.
pub open spec fn scaffolding_note(n_scaf: nat) -> Seq<char> {
    if n_scaf > 0 {
        " ("@ + decimal_view(n_scaf) + " scaffolding crates excluded)"@
    } else {
        Seq::empty()
    }
}

proof fn lemma_count_push(ls: Seq<(Seq<char>, Seq<char>)>, x: (Seq<char>, Seq<char>), l: Seq<char>)
    ensures
        label_count(ls.push(x), l) == label_count(ls, l) + if x.1 == l {
            1nat
        } else {
            0nat
        },
{
    assert(ls.push(x).drop_last() =~= ls);
}

proof fn lemma_labels_distinct()
    ensures
        "end_use"@ != "dev_use"@,
        "end_use"@ != "end_with_dev_use"@,
        "end_use"@ != "dev_with_end_use"@,
        "dev_use"@ != "end_with_dev_use"@,
        "dev_use"@ != "dev_with_end_use"@,
        "end_with_dev_use"@ != "dev_with_end_use"@,
{
    reveal_strlit("end_use");
    reveal_strlit("dev_use");
    reveal_strlit("end_with_dev_use");
    reveal_strlit("dev_with_end_use");
    assert("end_use"@[0] != "dev_use"@[0]);
    assert("end_use"@.len() != "end_with_dev_use"@.len());
    assert("end_use"@.len() != "dev_with_end_use"@.len());
    assert("dev_use"@.len() != "end_with_dev_use"@.len());
    assert("dev_use"@.len() != "dev_with_end_use"@.len());
    assert("end_with_dev_use"@[0] != "dev_with_end_use"@[0]);
}

proof fn lemma_label_counts_bounded(ls: Seq<(Seq<char>, Seq<char>)>)
    ensures
        label_count(ls, "end_use"@) + label_count(ls, "dev_use"@) + label_count(ls, "end_with_dev_use"@)
            + label_count(ls, "dev_with_end_use"@) <= ls.len(),
    decreases ls.len(),
{
    lemma_labels_distinct();
    if ls.len() > 0 {
        lemma_label_counts_bounded(ls.drop_last());
    }
}

/// What a workspace use classification holds: the labels of the crates in
/// order, the four bucket counts, the sorted scaffolding crates, and the
/// verdict chosen from the counts with its reasoning.
pub open spec fn workspace_use_of(
    r: WorkspaceUseClassification,
    cs: Seq<(Seq<char>, CrateInfo)>,
    ms: Seq<(Seq<char>, PatternMetric)>,
    classification: ClassificationConfig,
) -> bool {
    let ls = labels_of(cs, ms, classification.dev_with_end_threshold as nat);
    let end = label_count(ls, "end_use"@);
    let dev = label_count(ls, "dev_use"@);
    let ewd = label_count(ls, "end_with_dev_use"@);
    let dwe = label_count(ls, "dev_with_end_use"@);
    let verdict = workspace_verdict(end, dev, ewd, dwe);
    &&& r.per_crate@.map_values(|p: (String, String)| (p.0@, p.1@)) == ls
    &&& r.buckets@.map_values(|p: (String, usize)| (p.0@, p.1 as nat)) == seq![
        ("end_use"@, end),
        ("dev_use"@, dev),
        ("end_with_dev_use"@, ewd),
        ("dev_with_end_use"@, dwe),
    ]
    &&& sorted_strings(strings_view(r.scaffolding_crates@))
    &&& strings_view(r.scaffolding_crates@).to_multiset() == scaffolding_of(cs).to_multiset()
    &&& r.workspace@ == verdict.0
    &&& r.reasoning@ == verdict.1 + scaffolding_note(scaffolding_of(cs).len())
}

/// Classifies the workspace: scaffolding crates are set aside, the others
/// labelled one by one, the labels counted into the four buckets, and the
/// workspace label chosen from the counts (all `dev_use`, all `end_use`, any
/// end-user product, any library with a CLI, else `dev_use`).
pub fn classify_workspace_use(
    crates: &IndexMap<String, CrateInfo>,
    pattern_metrics: &IndexMap<String, PatternMetric>,
    classification: &ClassificationConfig,
) -> (r: WorkspaceUseClassification)
    requires
        inter_total(metric_entries(*pattern_metrics)) <= usize::MAX,
    ensures
        workspace_use_of(r, crate_entries(*crates), metric_entries(*pattern_metrics), *classification),
{
    let ghost cs = crate_entries(*crates);
    let ghost ms = metric_entries(*pattern_metrics);
    let ghost th = classification.dev_with_end_threshold as nat;
    let n = crate_count(crates);
    let mut per_crate: Vec<(String, String)> = Vec::new();
    let mut scaffolding: Vec<String> = Vec::new();
    let mut end: usize = 0;
    let mut dev: usize = 0;
    let mut ewd: usize = 0;
    let mut dwe: usize = 0;
    proof {
        lemma_labels_distinct();
    }
    assert(cs.take(0) =~= Seq::<(Seq<char>, CrateInfo)>::empty());
    assert(per_crate@.map_values(|p: (String, String)| (p.0@, p.1@)) =~= labels_of(cs.take(0), ms, th));
    assert(strings_view(scaffolding@) =~= scaffolding_of(cs.take(0)));
    let mut i: usize = 0;
    while i < n
        invariant
            i <= n == cs.len(),
            cs == crate_entries(*crates),
            ms == metric_entries(*pattern_metrics),
            th == classification.dev_with_end_threshold as nat,
            inter_total(ms) <= usize::MAX,
            per_crate@.map_values(|p: (String, String)| (p.0@, p.1@)) == labels_of(cs.take(i as int), ms, th),
            strings_view(scaffolding@) == scaffolding_of(cs.take(i as int)),
            end == label_count(labels_of(cs.take(i as int), ms, th), "end_use"@),
            dev == label_count(labels_of(cs.take(i as int), ms, th), "dev_use"@),
            ewd == label_count(labels_of(cs.take(i as int), ms, th), "end_with_dev_use"@),
            dwe == label_count(labels_of(cs.take(i as int), ms, th), "dev_with_end_use"@),
            end + dev + ewd + dwe <= i,
        decreases n - i,
    {
        let (name, info) = crate_at(crates, i).unwrap();
        assert(cs.take(i + 1).drop_last() =~= cs.take(i as int));
        assert(cs.take(i + 1).last() == cs[i as int]);
        if is_scaffolding(name.as_str(), info) {
            let ghost before = strings_view(scaffolding@);
            scaffolding.push(name.clone());
            assert(strings_view(scaffolding@) =~= before.push(name@));
        } else {
            let label = classify_crate_use(name.as_str(), info, pattern_metrics, classification);
            let ghost before = per_crate@.map_values(|p: (String, String)| (p.0@, p.1@));
            if str_eq(label.as_str(), "end_use") {
                end = end + 1;
            } else if str_eq(label.as_str(), "dev_use") {
                dev = dev + 1;
            } else if str_eq(label.as_str(), "end_with_dev_use") {
                ewd = ewd + 1;
            } else if str_eq(label.as_str(), "dev_with_end_use") {
                dwe = dwe + 1;
            }
            let ghost x = (name@, label@);
            proof {
                lemma_labels_distinct();
                lemma_count_push(before, x, "end_use"@);
                lemma_count_push(before, x, "dev_use"@);
                lemma_count_push(before, x, "end_with_dev_use"@);
                lemma_count_push(before, x, "dev_with_end_use"@);
            }
            assert(labels_of(cs.take(i + 1), ms, th) == before.push(x));
            per_crate.push((name.clone(), label));
            assert(per_crate@.map_values(|p: (String, String)| (p.0@, p.1@)) =~= before.push(x));
        }
        i = i + 1;
    }
    assert(cs.take(n as int) =~= cs);
    let total = end + dev + ewd + dwe;
    let mut reasoning = String::new();
    let workspace: String;
    if total == 0 {
        workspace = "dev_use".to_owned();
        push_str(&mut reasoning, "no primary crates after scaffolding exclusion");
    } else if dev == total {
        workspace = "dev_use".to_owned();
        push_str(&mut reasoning, "all ");
        push_decimal(&mut reasoning, total);
        push_str(&mut reasoning, " primary crates are pure dev_use libraries");
    } else if end == total {
        workspace = "end_use".to_owned();
        push_str(&mut reasoning, "all ");
        push_decimal(&mut reasoning, total);
        push_str(&mut reasoning, " primary crates are pure end_use binaries");
    } else if ewd > 0 || end > 0 {
        workspace = "end_with_dev_use".to_owned();
        push_str(&mut reasoning, "primary crates: end_use=");
        push_decimal(&mut reasoning, end);
        push_str(&mut reasoning, " end_with_dev_use=");
        push_decimal(&mut reasoning, ewd);
        push_str(&mut reasoning, " dev_with_end_use=");
        push_decimal(&mut reasoning, dwe);
        push_str(&mut reasoning, " dev_use=");
        push_decimal(&mut reasoning, dev);
        push_str(
            &mut reasoning,
            "; the workspace ships an end-user product with the libraries composing it",
        );
    } else if dwe > 0 {
        workspace = "dev_with_end_use".to_owned();
        push_str(&mut reasoning, "primary crates: dev_use=");
        push_decimal(&mut reasoning, dev);
        push_str(&mut reasoning, " dev_with_end_use=");
        push_decimal(&mut reasoning, dwe);
        push_str(
            &mut reasoning,
            "; the workspace's primary deliverable is a library with a CLI auxiliary (gitoxide pattern)",
        );
    } else {
        workspace = "dev_use".to_owned();
        push_str(&mut reasoning, "fallback default");
    }
    let n_scaf = scaffolding.len();
    if n_scaf > 0 {
        push_str(&mut reasoning, " (");
        push_decimal(&mut reasoning, n_scaf);
        push_str(&mut reasoning, " scaffolding crates excluded)");
    }
    let sorted = sort_strings(&scaffolding);
    let mut buckets: Vec<(String, usize)> = Vec::new();
    buckets.push(("end_use".to_owned(), end));
    buckets.push(("dev_use".to_owned(), dev));
    buckets.push(("end_with_dev_use".to_owned(), ewd));
    buckets.push(("dev_with_end_use".to_owned(), dwe));
    assert(buckets@.map_values(|p: (String, usize)| (p.0@, p.1 as nat)) =~= seq![
        ("end_use"@, end as nat),
        ("dev_use"@, dev as nat),
        ("end_with_dev_use"@, ewd as nat),
        ("dev_with_end_use"@, dwe as nat),
    ]);
    let r = WorkspaceUseClassification {
        workspace,
        per_crate,
        buckets,
        scaffolding_crates: sorted,
        reasoning,
    };
    proof {
        let ls = labels_of(cs, ms, th);
        assert(r.per_crate@.map_values(|p: (String, String)| (p.0@, p.1@)) == ls);
        assert(r.buckets@.map_values(|p: (String, usize)| (p.0@, p.1 as nat)) == seq![
            ("end_use"@, label_count(ls, "end_use"@)),
            ("dev_use"@, label_count(ls, "dev_use"@)),
            ("end_with_dev_use"@, label_count(ls, "end_with_dev_use"@)),
            ("dev_with_end_use"@, label_count(ls, "dev_with_end_use"@)),
        ]);
        let verdict = workspace_verdict(
            label_count(ls, "end_use"@),
            label_count(ls, "dev_use"@),
            label_count(ls, "end_with_dev_use"@),
            label_count(ls, "dev_with_end_use"@),
        );
        assert(sorted_strings(strings_view(r.scaffolding_crates@)));
        assert(strings_view(r.scaffolding_crates@).to_multiset() == scaffolding_of(cs).to_multiset());
        assert(r.workspace@ == verdict.0);
        assert(r.reasoning@ == verdict.1 + scaffolding_note(scaffolding_of(cs).len()));
    }
    r
}

/// Every crate is either scaffolding or a labelled primary crate, and every
/// primary crate falls in exactly one of the four buckets: the bucket counts
/// add up to the number of primary crates, which with the scaffolding crates
/// make up all crates.
pub proof fn lemma_buckets_partition_crates(
    cs: Seq<(Seq<char>, CrateInfo)>,
    ms: Seq<(Seq<char>, PatternMetric)>,
    threshold: nat,
)
    ensures
        ({
            let ls = labels_of(cs, ms, threshold);
            &&& label_count(ls, "end_use"@) + label_count(ls, "dev_use"@) + label_count(
                ls,
                "end_with_dev_use"@,
            ) + label_count(ls, "dev_with_end_use"@) == ls.len()
            &&& scaffolding_of(cs).len() + ls.len() == cs.len()
        }),
    decreases cs.len(),
{
    lemma_labels_distinct();
    if cs.len() > 0 {
        lemma_buckets_partition_crates(cs.drop_last(), ms, threshold);
        let prev = labels_of(cs.drop_last(), ms, threshold);
        if !scaffolding_rule(lowercase(cs.last().0), lowercase(cs.last().1.dir@)) {
            let x = (
                cs.last().0,
                crate_use_label(
                    cs.last().1.has_bin,
                    cs.last().1.has_lib,
                    pub_inter_total(ms, cs.last().0),
                    threshold,
                ),
            );
            lemma_count_push(prev, x, "end_use"@);
            lemma_count_push(prev, x, "dev_use"@);
            lemma_count_push(prev, x, "end_with_dev_use"@);
            lemma_count_push(prev, x, "dev_with_end_use"@);
        }
    }
}

/// The inter-crate total of a prefix is at most that of the whole list.
proof fn lemma_inter_total_prefix(ms: Seq<(Seq<char>, PatternMetric)>, n: int)
    requires
        0 <= n <= ms.len(),
    ensures
        inter_total(ms.take(n)) <= inter_total(ms),
    decreases ms.len(),
{
    if n < ms.len() {
        assert(ms.drop_last().take(n) =~= ms.take(n));
        lemma_inter_total_prefix(ms.drop_last(), n);
    } else {
        assert(ms.take(n) =~= ms);
    }
}

/// The sum of the metrics' inter-crate counts, `None` when it does not fit
/// a `usize`.
pub fn metrics_inter_total(pattern_metrics: &IndexMap<String, PatternMetric>) -> (r: Option<usize>)
    ensures
        r matches Some(t) ==> t as nat == inter_total(metric_entries(*pattern_metrics)),
        r is None <==> inter_total(metric_entries(*pattern_metrics)) > usize::MAX,
{
    let ghost ms = metric_entries(*pattern_metrics);
    let n = metric_count(pattern_metrics);
    let mut total: usize = 0;
    let mut i: usize = 0;
    assert(ms.take(0) =~= Seq::<(Seq<char>, PatternMetric)>::empty());
    while i < n
        invariant
            n == ms.len(),
            i <= n,
            ms == metric_entries(*pattern_metrics),
            total as nat == inter_total(ms.take(i as int)),
        decreases n - i,
    {
        let e = metric_at(pattern_metrics, i);
        let m = e.unwrap().1;
        assert(ms.take(i + 1).drop_last() =~= ms.take(i as int));
        assert(ms.take(i + 1).last() == ms[i as int]);
        match total.checked_add(m.inter_count) {
            Some(t2) => {
                total = t2;
            },
            None => {
                proof {
                    lemma_inter_total_prefix(ms, i + 1);
                }
                return None;
            },
        }
        i = i + 1;
    }
    assert(ms.take(i as int) =~= ms);
    Some(total)
}

/// `classify_crate_use` for any metrics: `None` exactly when the metrics'
/// inter-crate total does not fit a `usize`.
pub fn classify_crate_use_checked(
    name: &str,
    info: &CrateInfo,
    pattern_metrics: &IndexMap<String, PatternMetric>,
    classification: &ClassificationConfig,
) -> (r: Option<String>)
    ensures
        r is None <==> inter_total(metric_entries(*pattern_metrics)) > usize::MAX,
        r matches Some(l) ==> l@ == crate_use_label(
            info.has_bin,
            info.has_lib,
            pub_inter_total(metric_entries(*pattern_metrics), name@),
            classification.dev_with_end_threshold as nat,
        ),
{
    match metrics_inter_total(pattern_metrics) {
        Some(_) => Some(classify_crate_use(name, info, pattern_metrics, classification)),
        None => None,
    }
}

/// `classify_workspace_use` for any metrics: `None` exactly when the
/// metrics' inter-crate total does not fit a `usize`.
pub fn classify_workspace_use_checked(
    crates: &IndexMap<String, CrateInfo>,
    pattern_metrics: &IndexMap<String, PatternMetric>,
    classification: &ClassificationConfig,
) -> (r: Option<WorkspaceUseClassification>)
    ensures
        r is None <==> inter_total(metric_entries(*pattern_metrics)) > usize::MAX,
        r matches Some(c) ==> workspace_use_of(c, crate_entries(*crates), metric_entries(*pattern_metrics), *classification),
{
    match metrics_inter_total(pattern_metrics) {
        Some(_) => Some(classify_workspace_use(crates, pattern_metrics, classification)),
        None => None,
    }
}

/// Every labelled crate carries `label`.
pub open spec fn all_labeled(ls: Seq<(Seq<char>, Seq<char>)>, label: Seq<char>) -> bool {
    forall|i: int| 0 <= i < ls.len() ==> (#[trigger] ls[i]).1 == label
}

/// Some labelled crate carries `label`.
pub open spec fn any_labeled(ls: Seq<(Seq<char>, Seq<char>)>, label: Seq<char>) -> bool {
    exists|i: int| 0 <= i < ls.len() && (#[trigger] ls[i]).1 == label
}

proof fn lemma_label_count_meaning(ls: Seq<(Seq<char>, Seq<char>)>, label: Seq<char>)
    ensures
        label_count(ls, label) <= ls.len(),
        label_count(ls, label) == ls.len() <==> all_labeled(ls, label),
        label_count(ls, label) > 0 <==> any_labeled(ls, label),
    decreases ls.len(),
{
    if ls.len() > 0 {
        let d = ls.drop_last();
        lemma_label_count_meaning(d, label);
        assert forall|i: int| 0 <= i < d.len() implies #[trigger] d[i] == ls[i] by {}
        if all_labeled(ls, label) {
            assert forall|i: int| 0 <= i < d.len() implies (#[trigger] d[i]).1 == label by {
                assert(d[i] == ls[i]);
            }
            assert(ls[ls.len() - 1].1 == label);
        }
        if any_labeled(d, label) {
            let i = choose|i: int| 0 <= i < d.len() && (#[trigger] d[i]).1 == label;
            assert(ls[i] == d[i]);
        }
        if any_labeled(ls, label) && !any_labeled(d, label) {
            let i = choose|i: int| 0 <= i < ls.len() && (#[trigger] ls[i]).1 == label;
            if i < d.len() {
                assert(d[i] == ls[i]);
            }
        }
        if label_count(ls, label) == ls.len() {
            assert forall|i: int| 0 <= i < ls.len() implies (#[trigger] ls[i]).1 == label by {
                if i < d.len() {
                    assert(d[i] == ls[i]);
                }
            }
        }
        if ls.last().1 == label {
            assert(ls[ls.len() - 1].1 == label);
        }
    }
}

/// The workspace use law: the scaffolding crates and the labelled crates
/// together are all crates, the four bucket counts add up to the labelled
/// crates, and the verdict is `dev_use` when no crate is labelled or all are
/// `dev_use`, `end_use` when all are `end_use`, `end_with_dev_use` when some
/// crate is `end_use` or `end_with_dev_use`, and `dev_with_end_use`
/// otherwise.
pub proof fn lemma_workspace_use_verdict(
    r: WorkspaceUseClassification,
    cs: Seq<(Seq<char>, CrateInfo)>,
    ms: Seq<(Seq<char>, PatternMetric)>,
    c: ClassificationConfig,
)
    requires
        workspace_use_of(r, cs, ms, c),
    ensures
        r.scaffolding_crates@.len() + r.per_crate@.len() == cs.len(),
        r.buckets@.len() == 4,
        r.buckets@[0].1 + r.buckets@[1].1 + r.buckets@[2].1 + r.buckets@[3].1 == r.per_crate@.len(),
        ({
            let ls = labels_of(cs, ms, c.dev_with_end_threshold as nat);
            r.workspace@ == if ls.len() == 0 || all_labeled(ls, "dev_use"@) {
                "dev_use"@
            } else if all_labeled(ls, "end_use"@) {
                "end_use"@
            } else if any_labeled(ls, "end_use"@) || any_labeled(ls, "end_with_dev_use"@) {
                "end_with_dev_use"@
            } else {
                "dev_with_end_use"@
            }
        }),
{
    let th = c.dev_with_end_threshold as nat;
    let ls = labels_of(cs, ms, th);
    lemma_buckets_partition_crates(cs, ms, th);
    lemma_label_count_meaning(ls, "end_use"@);
    lemma_label_count_meaning(ls, "dev_use"@);
    lemma_label_count_meaning(ls, "end_with_dev_use"@);
    lemma_label_count_meaning(ls, "dev_with_end_use"@);
    let bv = r.buckets@.map_values(|p: (String, usize)| (p.0@, p.1 as nat));
    assert(bv.len() == 4);
    assert(bv[0].1 == r.buckets@[0].1 && bv[1].1 == r.buckets@[1].1);
    assert(bv[2].1 == r.buckets@[2].1 && bv[3].1 == r.buckets@[3].1);
    assert(r.per_crate@.map_values(|p: (String, String)| (p.0@, p.1@)).len() == r.per_crate@.len());
    strings_view(r.scaffolding_crates@).to_multiset_ensures();
    scaffolding_of(cs).to_multiset_ensures();
}

/// The names of the crates that are not scaffolding, in crate order.
pub open spec fn primary_names(cs: Seq<(Seq<char>, CrateInfo)>) -> Seq<Seq<char>>
    decreases cs.len(),
{
    if cs.len() == 0 {
        Seq::empty()
    } else if scaffolding_rule(lowercase(cs.last().0), lowercase(cs.last().1.dir@)) {
        primary_names(cs.drop_last())
    } else {
        primary_names(cs.drop_last()).push(cs.last().0)
    }
}

/// The labelled crates are exactly the crates that are not scaffolding, in
/// the crate map's order.
pub proof fn lemma_labels_follow_crate_order(
    cs: Seq<(Seq<char>, CrateInfo)>,
    ms: Seq<(Seq<char>, PatternMetric)>,
    threshold: nat,
)
    ensures
        labels_of(cs, ms, threshold).map_values(|p: (Seq<char>, Seq<char>)| p.0) == primary_names(cs),
    decreases cs.len(),
{
    if cs.len() > 0 {
        lemma_labels_follow_crate_order(cs.drop_last(), ms, threshold);
        let prev = labels_of(cs.drop_last(), ms, threshold);
        let cur = labels_of(cs, ms, threshold);
        if cur.len() > prev.len() {
            assert(cur.map_values(|p: (Seq<char>, Seq<char>)| p.0) =~= prev.map_values(
                |p: (Seq<char>, Seq<char>)| p.0,
            ).push(cur.last().0));
        }
    }
}

} // verus!
