//! The mechanical sections of the orientation document: how it was shaped,
//! the crate / region map, the core vocabulary, the seam spine, the foreign
//! API surface, the unresolved guardrails and the histogram appendix.

use vstd::prelude::*;
use crate::fingerprint::PatternHistogramEntry;
use crate::foreign::ForeignRootSurface;
use crate::metrics::{owned_or_empty, text_or_empty};
use crate::numfmt::{decimal_view, push_decimal, push_signed, signed_view};
use crate::modules::join_view;
use crate::reference::join_strings;
use crate::resolution::strings_view;
use crate::routing::{histogram_line, or_unknown, or_unknown_exec, push_line, push_lines};
use crate::seams::{DetectedSeam, SeamSite, index_view, sites_view};
use crate::instances::{FactRecord, span, span_view};
use crate::emit_text::truncate_chars;
use crate::resolution::opt_view;
use crate::vocabulary::{CoreVocabulary, ranked_view};
use crate::text::{contains_seq, push_str, str_contains, str_eq};
use crate::cluster::{cluster_rows, clusters_by_prefix, clusters_view};
use crate::sorting::{sort_strings, sorted_view};
use crate::routing::{MemberRow, member_lines, member_lines_view, member_names};
use crate::stable_order::{KeyView, SortKey, keys_view, positions_view, stable_order, stable_order_exec};

verus! {

/// What the selection, shape and use classification say of how the
/// document was shaped; `top_share` is already rendered as text.
#[derive(Debug, Clone)]
pub struct ShapingFacts {
    pub mode: Option<String>,
    pub histogram_mode: Option<String>,
    pub top_share: Option<String>,
    pub shape: Option<String>,
    pub shape_reasoning: Option<String>,
    pub use_label: Option<String>,
    pub use_reasoning: Option<String>,
    pub runner_up: Option<String>,
    pub notes: Vec<String>,
}

/// The structural-shape line, present for a shape other than `container`.
pub open spec fn shape_part(f: ShapingFacts) -> Seq<Seq<char>> {
    match f.shape {
        Some(l) => if l@ != "container"@ {
            seq!["- structural shape: **"@ + l@ + "** -- "@ + text_or_empty(f.shape_reasoning)]
        } else {
            Seq::empty()
        },
        None => Seq::empty(),
    }
}

/// The use-classification line, present when the workspace is classified.
pub open spec fn use_part(f: ShapingFacts) -> Seq<Seq<char>> {
    match f.use_label {
        Some(l) => seq!["- use classification: **"@ + l@ + "** -- "@ + text_or_empty(f.use_reasoning)],
        None => Seq::empty(),
    }
}

/// The runner-up line, present when a runner-up mode is in the ambiguity
/// band.
pub open spec fn runner_part(f: ShapingFacts) -> Seq<Seq<char>> {
    match f.runner_up {
        Some(r) => seq![
            "- **UNRESOLVED (method-selection):** runner-up mode `"@ + r@
                + "` is within the ambiguity band. Confirm against the histogram below."@,
        ],
        None => Seq::empty(),
    }
}

/// The lines of the "How this artifact was shaped" section.
pub open spec fn shaped_view(f: ShapingFacts) -> Seq<Seq<char>> {
    seq![
        "## How this artifact was shaped"@,
        Seq::empty(),
        "- mode: **"@ + or_unknown(f.mode) + "** (histogram alone: "@ + or_unknown(f.histogram_mode)
            + ", top_share="@ + or_unknown(f.top_share) + ")"@,
    ] + shape_part(f) + use_part(f) + runner_part(f) + strings_view(f.notes@).map_values(
        |n: Seq<char>| "- note: "@ + n,
    ) + seq![Seq::<char>::empty()]
}

/// The lines of the "How this artifact was shaped" section: the selected
/// mode with the histogram-alone mode and top share, the structural shape
/// (unless `container`), the use classification, the runner-up mode when
/// ambiguous, and each selection note.
pub fn shaped_lines(f: &ShapingFacts) -> (r: Vec<String>)
    ensures
        strings_view(r@) == shaped_view(*f),
{
    let mut lines: Vec<String> = Vec::new();
    push_line(&mut lines, "## How this artifact was shaped".to_string());
    push_line(&mut lines, String::new());
    let mut l = "- mode: **".to_string();
    push_str(&mut l, or_unknown_exec(&f.mode).as_str());
    push_str(&mut l, "** (histogram alone: ");
    push_str(&mut l, or_unknown_exec(&f.histogram_mode).as_str());
    push_str(&mut l, ", top_share=");
    push_str(&mut l, or_unknown_exec(&f.top_share).as_str());
    push_str(&mut l, ")");
    push_line(&mut lines, l);
    let ghost head = strings_view(lines@);
    match &f.shape {
        Some(label) => {
            if !str_eq(label.as_str(), "container") {
                let mut l = "- structural shape: **".to_string();
                push_str(&mut l, label.as_str());
                push_str(&mut l, "** -- ");
                push_str(&mut l, owned_or_empty(&f.shape_reasoning).as_str());
                push_line(&mut lines, l);
            }
        },
        None => {},
    }
    assert(strings_view(lines@) =~= head + shape_part(*f));
    let ghost with_shape = strings_view(lines@);
    match &f.use_label {
        Some(label) => {
            let mut l = "- use classification: **".to_string();
            push_str(&mut l, label.as_str());
            push_str(&mut l, "** -- ");
            push_str(&mut l, owned_or_empty(&f.use_reasoning).as_str());
            push_line(&mut lines, l);
        },
        None => {},
    }
    assert(strings_view(lines@) =~= with_shape + use_part(*f));
    let ghost with_use = strings_view(lines@);
    match &f.runner_up {
        Some(ru) => {
            let mut l = "- **UNRESOLVED (method-selection):** runner-up mode `".to_string();
            push_str(&mut l, ru.as_str());
            push_str(&mut l, "` is within the ambiguity band. Confirm against the histogram below.");
            push_line(&mut lines, l);
        },
        None => {},
    }
    assert(strings_view(lines@) =~= with_use + runner_part(*f));
    let ghost before_notes = strings_view(lines@);
    let ghost nv = strings_view(f.notes@).map_values(|n: Seq<char>| "- note: "@ + n);
    let mut i: usize = 0;
    while i < f.notes.len()
        invariant
            i <= f.notes@.len(),
            nv == strings_view(f.notes@).map_values(|n: Seq<char>| "- note: "@ + n),
            strings_view(lines@) == before_notes + nv.take(i as int),
        decreases f.notes@.len() - i,
    {
        let mut l = "- note: ".to_string();
        push_str(&mut l, f.notes[i].as_str());
        push_line(&mut lines, l);
        assert(nv.take(i + 1) =~= nv.take(i as int).push(nv[i as int]));
        assert(strings_view(lines@) =~= before_notes + nv.take(i + 1));
        i = i + 1;
    }
    assert(nv.take(i as int) =~= nv);
    push_line(&mut lines, String::new());
    assert(strings_view(lines@) =~= shaped_view(*f));
    lines
}

pub const NO_SEAM_MARKERS: &'static str = "- No strong seam markers detected. **[AGENT]** confirm by inspecting the dominant pattern's boundaries; absence of markers is itself worth noting.";

pub const SEAM_TRACE_PROMPT: &'static str = "**[AGENT]** For each seam, trace each protagonist pattern's instance (per S5.N) UP TO the seam and stop. Record the wire / foreign contract location if visible; otherwise write `UNRESOLVED: <what you looked for>, <what you ran>`. Different protagonists may interact with the same seam differently (e.g. plugin commands cross the IPC seam; builtin commands do not).";

/// A seed-site line: `    - site: path (file:line)`, `?` for a missing
/// file or line.
pub open spec fn site_line(s: SeamSite) -> Seq<char> {
    "    - site: "@ + text_or_empty(s.path) + " ("@ + or_unknown(s.file) + ":"@ + match s.line {
        Some(l) => signed_view(l as int),
        None => "?"@,
    } + ")"@
}

/// The title line of a seam: `- **title** - description`.
pub open spec fn seam_title_line(s: DetectedSeam) -> Seq<char> {
    "- **"@ + s.title@ + "** - "@ + s.description@
}

/// Each seam's title line followed by its seed-site lines.
pub open spec fn seam_entries(seams: Seq<DetectedSeam>) -> Seq<Seq<char>>
    decreases seams.len(),
{
    if seams.len() == 0 {
        Seq::empty()
    } else {
        seam_entries(seams.drop_last()) + seq![seam_title_line(seams.last())] + seams.last().sites@.map_values(
            |x: SeamSite| site_line(x),
        )
    }
}

/// The lines of the seam-spine section.
pub open spec fn seam_spine_view(seams: Seq<DetectedSeam>) -> Seq<Seq<char>> {
    seq![
        "## 3. Seam-spine"@,
        Seq::empty(),
        "Where the workspace stops being one connected thing. These are where architect-"@,
        "level features add or cross boundaries, and where the static trace stops honestly."@,
        Seq::empty(),
    ] + (if seams.len() > 0 {
        seam_entries(seams)
    } else {
        seq![NO_SEAM_MARKERS@]
    }) + seq![Seq::empty(), SEAM_TRACE_PROMPT@, Seq::empty()]
}

fn site_line_exec(s: &SeamSite) -> (r: String)
    ensures
        r@ == site_line(*s),
{
    let mut l = "    - site: ".to_string();
    push_str(&mut l, owned_or_empty(&s.path).as_str());
    push_str(&mut l, " (");
    push_str(&mut l, or_unknown_exec(&s.file).as_str());
    push_str(&mut l, ":");
    match s.line {
        Some(n) => push_signed(&mut l, n),
        None => push_str(&mut l, "?"),
    }
    push_str(&mut l, ")");
    l
}

/// The lines of the seam-spine section: each detected seam with its seed
/// sites, or the note that no seam marker was detected, then the tracing
/// prompt.
pub fn seam_spine_lines(seams: &Vec<DetectedSeam>) -> (r: Vec<String>)
    ensures
        strings_view(r@) == seam_spine_view(seams@),
{
    let mut lines: Vec<String> = Vec::new();
    push_line(&mut lines, "## 3. Seam-spine".to_string());
    push_line(&mut lines, String::new());
    push_line(&mut lines, "Where the workspace stops being one connected thing. These are where architect-".to_string());
    push_line(&mut lines, "level features add or cross boundaries, and where the static trace stops honestly.".to_string());
    push_line(&mut lines, String::new());
    let ghost head = strings_view(lines@);
    if seams.len() > 0 {
        let mut i: usize = 0;
        while i < seams.len()
            invariant
                i <= seams@.len(),
                strings_view(lines@) == head + seam_entries(seams@.take(i as int)),
            decreases seams@.len() - i,
        {
            proof {
                assert(seams@.take(i + 1).drop_last() =~= seams@.take(i as int));
                assert(seams@.take(i + 1).last() == seams@[i as int]);
            }
            let s = &seams[i];
            let ghost before = strings_view(lines@);
            let mut l = "- **".to_string();
            push_str(&mut l, s.title.as_str());
            push_str(&mut l, "** - ");
            push_str(&mut l, s.description.as_str());
            push_line(&mut lines, l);
            let ghost sites = s.sites@.map_values(|x: SeamSite| site_line(x));
            let mut k: usize = 0;
            while k < s.sites.len()
                invariant
                    k <= s.sites@.len(),
                    sites == s.sites@.map_values(|x: SeamSite| site_line(x)),
                    strings_view(lines@) == before + seq![seam_title_line(*s)] + sites.take(k as int),
                decreases s.sites@.len() - k,
            {
                push_line(&mut lines, site_line_exec(&s.sites[k]));
                assert(sites.take(k + 1) =~= sites.take(k as int).push(sites[k as int]));
                assert(strings_view(lines@) =~= before + seq![seam_title_line(*s)] + sites.take(k + 1));
                k = k + 1;
            }
            assert(sites.take(k as int) =~= sites);
            assert(strings_view(lines@) =~= head + seam_entries(seams@.take(i + 1)));
            i = i + 1;
        }
        assert(seams@.take(i as int) =~= seams@);
    } else {
        push_line(&mut lines, NO_SEAM_MARKERS.to_string());
    }
    let ghost mid = strings_view(lines@);
    push_line(&mut lines, String::new());
    push_line(&mut lines, SEAM_TRACE_PROMPT.to_string());
    push_line(&mut lines, String::new());
    assert(strings_view(lines@) =~= mid + seq![Seq::empty(), SEAM_TRACE_PROMPT@, Seq::empty()]);
    lines
}

pub const FOREIGN_INTRO: &'static str = "Items below are NOT workspace-defined: the workspace re-exports them from foreign crates (std included) as part of its public face. Authoring against them follows the FOREIGN crate's contract; the workspace controls only the re-export path. Grouped by foreign root; `(namespace)` marks whole-crate re-exports whose full surface lives in the foreign crate's own docs.";

/// At most the first `n` of a list.
pub open spec fn first_n<A>(s: Seq<A>, n: int) -> Seq<A> {
    s.take(if s.len() < n {
        s.len() as int
    } else {
        n
    })
}

/// The line of a foreign root: its name, ` (namespace)` for a whole-crate
/// re-export, and its first 20 leaves with a count of the rest.
pub open spec fn foreign_root_line(e: ForeignRootSurface) -> Seq<char> {
    let ns = if e.namespace {
        " (namespace)"@
    } else {
        Seq::empty()
    };
    let leaves = strings_view(e.leaves@);
    if leaves.len() == 0 {
        "- **`"@ + e.root@ + "`**"@ + ns
    } else {
        "- **`"@ + e.root@ + "`**"@ + ns + ": "@ + join_view(first_n(leaves, 20), ", "@) + if leaves.len() > 20 {
            " (+"@ + decimal_view((leaves.len() - 20) as nat) + " more)"@
        } else {
            Seq::empty()
        }
    }
}

/// The lines of the foreign API surface section; none when nothing foreign
/// is re-exported.
pub open spec fn foreign_view(surface: Seq<ForeignRootSurface>) -> Seq<Seq<char>> {
    if surface.len() == 0 {
        Seq::empty()
    } else {
        seq!["## 5F. Foreign API surface (re-exported)"@, Seq::empty(), FOREIGN_INTRO@, Seq::empty()]
            + surface.map_values(|e: ForeignRootSurface| foreign_root_line(e)) + seq![Seq::<char>::empty()]
    }
}

fn foreign_root_line_exec(e: &ForeignRootSurface) -> (r: String)
    ensures
        r@ == foreign_root_line(*e),
{
    let ghost lv = strings_view(e.leaves@);
    let mut l = "- **`".to_string();
    push_str(&mut l, e.root.as_str());
    push_str(&mut l, "`**");
    if e.namespace {
        push_str(&mut l, " (namespace)");
    } else {
        assert(l@ + Seq::<char>::empty() =~= l@);
    }
    if e.leaves.len() > 0 {
        let n: usize = if e.leaves.len() < 20 {
            e.leaves.len()
        } else {
            20
        };
        let mut shown: Vec<String> = Vec::new();
        let mut i: usize = 0;
        while i < n
            invariant
                i <= n <= e.leaves@.len(),
                lv == strings_view(e.leaves@),
                strings_view(shown@) == lv.take(i as int),
            decreases n - i,
        {
            let ghost before = strings_view(shown@);
            shown.push(e.leaves[i].clone());
            assert(strings_view(shown@) =~= before.push(lv[i as int]));
            assert(lv.take(i + 1) =~= lv.take(i as int).push(lv[i as int]));
            i = i + 1;
        }
        assert(lv.take(n as int) == first_n(lv, 20));
        push_str(&mut l, ": ");
        push_str(&mut l, join_strings(&shown, ", ").as_str());
        if e.leaves.len() > 20 {
            push_str(&mut l, " (+");
            push_decimal(&mut l, e.leaves.len() - 20);
            push_str(&mut l, " more)");
        } else {
            assert(l@ + Seq::<char>::empty() =~= l@);
        }
    }
    l
}

/// The lines of the foreign API surface section: each foreign root with
/// its namespace mark and first 20 re-exported leaves; nothing when no
/// foreign item is re-exported.
pub fn foreign_surface_lines(surface: &Vec<ForeignRootSurface>) -> (r: Vec<String>)
    ensures
        strings_view(r@) == foreign_view(surface@),
{
    let mut lines: Vec<String> = Vec::new();
    if surface.len() == 0 {
        assert(strings_view(lines@) =~= foreign_view(surface@));
        return lines;
    }
    push_line(&mut lines, "## 5F. Foreign API surface (re-exported)".to_string());
    push_line(&mut lines, String::new());
    push_line(&mut lines, FOREIGN_INTRO.to_string());
    push_line(&mut lines, String::new());
    let ghost head = strings_view(lines@);
    let ghost rows = surface@.map_values(|e: ForeignRootSurface| foreign_root_line(e));
    let mut i: usize = 0;
    while i < surface.len()
        invariant
            i <= surface@.len(),
            rows == surface@.map_values(|e: ForeignRootSurface| foreign_root_line(e)),
            strings_view(lines@) == head + rows.take(i as int),
        decreases surface@.len() - i,
    {
        push_line(&mut lines, foreign_root_line_exec(&surface[i]));
        assert(rows.take(i + 1) =~= rows.take(i as int).push(rows[i as int]));
        assert(strings_view(lines@) =~= head + rows.take(i + 1));
        i = i + 1;
    }
    assert(rows.take(i as int) =~= rows);
    push_line(&mut lines, String::new());
    assert(strings_view(lines@) =~= foreign_view(surface@));
    lines
}

/// The lines of the histogram appendix: the first 25 rows.
pub open spec fn appendix_view(histogram: Seq<PatternHistogramEntry>) -> Seq<Seq<char>> {
    seq!["## Appendix: full pattern histogram"@, Seq::empty()] + first_n(histogram, 25).map_values(
        |e: PatternHistogramEntry| histogram_line(e),
    ) + seq![Seq::<char>::empty()]
}

/// The lines of the histogram appendix: the first 25 histogram rows as
/// ``- `pattern` - count``.
pub fn appendix_lines(histogram: &Vec<PatternHistogramEntry>) -> (r: Vec<String>)
    ensures
        strings_view(r@) == appendix_view(histogram@),
{
    let mut lines: Vec<String> = Vec::new();
    push_line(&mut lines, "## Appendix: full pattern histogram".to_string());
    push_line(&mut lines, String::new());
    let ghost head = strings_view(lines@);
    let n: usize = if histogram.len() < 25 {
        histogram.len()
    } else {
        25
    };
    let ghost rows = first_n(histogram@, 25).map_values(|e: PatternHistogramEntry| histogram_line(e));
    let mut k: usize = 0;
    while k < n
        invariant
            k <= n <= histogram@.len(),
            n == (if histogram@.len() < 25 {
                histogram@.len()
            } else {
                25
            }),
            rows == first_n(histogram@, 25).map_values(|e: PatternHistogramEntry| histogram_line(e)),
            strings_view(lines@) == head + rows.take(k as int),
        decreases n - k,
    {
        let e = &histogram[k];
        let mut l = "- `".to_string();
        push_str(&mut l, e.pattern.as_str());
        push_str(&mut l, "` - ");
        push_decimal(&mut l, e.count);
        push_line(&mut lines, l);
        assert(rows[k as int] == histogram_line(histogram@[k as int]));
        assert(rows.take(k + 1) =~= rows.take(k as int).push(rows[k as int]));
        assert(strings_view(lines@) =~= head + rows.take(k + 1));
        k = k + 1;
    }
    assert(rows.take(k as int) =~= rows);
    push_line(&mut lines, String::new());
    assert(strings_view(lines@) =~= appendix_view(histogram@));
    lines
}

pub const GUARDRAIL_INTRO: &'static str = "Do not author *across* these without verifying in source first - a guessed bridge compiles but is wrong. Seeded from detected boundaries; **[AGENT]** add any trace stop you hit.";

pub const READABLE_REST: &'static str = ". Call-site arg counts remain unverified without the rustdoc overlay, but the `macro_rules!` body is statically followable for each listed definition site. Different definition crates may expand differently; confirm per call-site crate.";

pub const NOT_VISIBLE_REST: &'static str = "!` registration** - expansion not visible to the floor scanner (no inline `macro_rules!` definition found in the workspace; may be a proc-macro, imported from an external crate, or otherwise out of scope). Call-site arg counts are unverified. Confirm generated items in source or via the rustdoc overlay before relying on the registry.";

pub const NONE_SEEDED: &'static str = "- None seeded. Record trace stops here as you hit them.";

/// The definition sites the index lists for macro `m` (the first entry of
/// that name), none when it lists none.
pub open spec fn defs_for(idx: Seq<(Seq<char>, Seq<(Seq<char>, int)>)>, m: Seq<char>) -> Seq<(Seq<char>, int)>
    decreases idx.len(),
{
    if idx.len() == 0 {
        Seq::empty()
    } else if idx[0].0 == m {
        idx[0].1
    } else {
        defs_for(idx.subrange(1, idx.len() as int), m)
    }
}

/// A definition site as `file:line`.
pub open spec fn site_text(p: (Seq<char>, int)) -> Seq<char> {
    p.0 + ":"@ + signed_view(p.1)
}

/// The guardrail line of a registration macro: where its expansion can be
/// read inline (its first five definition sites and a count of the rest),
/// or that no inline definition was found.
pub open spec fn macro_guard_line(m: Seq<char>, defs: Seq<(Seq<char>, int)>) -> Seq<char> {
    if defs.len() > 0 {
        "- **`"@ + m + "!` registration** - expansion READABLE inline in the workspace at "@ + join_view(
            first_n(defs, 5).map_values(|p: (Seq<char>, int)| site_text(p)),
            ", "@,
        ) + (if defs.len() <= 5 {
            Seq::empty()
        } else {
            " (+ "@ + decimal_view((defs.len() - 5) as nat) + " more definition site(s))"@
        }) + READABLE_REST@
    } else {
        "- **`"@ + m + NOT_VISIBLE_REST@
    }
}

/// The lines of the unresolved-guardrails section.
pub open spec fn guardrail_view(
    macs: Seq<Seq<char>>,
    idx: Seq<(Seq<char>, Seq<(Seq<char>, int)>)>,
    seams: Seq<DetectedSeam>,
) -> Seq<Seq<char>> {
    seq!["## 6. UNRESOLVED guardrails"@, Seq::empty(), GUARDRAIL_INTRO@, Seq::empty()] + macs.map_values(
        |m: Seq<char>| macro_guard_line(m, defs_for(idx, m)),
    ) + seams.map_values(|s: DetectedSeam| seam_title_line(s)) + (if macs.len() == 0 && seams.len() == 0 {
        seq![NONE_SEEDED@]
    } else {
        Seq::empty()
    }) + seq![Seq::<char>::empty()]
}

fn defs_for_exec(idx: &Vec<(String, Vec<(String, i64)>)>, m: &str) -> (r: Option<usize>)
    ensures
        match r {
            Some(i) => i < idx@.len() && sites_view(idx@[i as int].1@) == defs_for(index_view(idx@), m@),
            None => defs_for(index_view(idx@), m@) == Seq::<(Seq<char>, int)>::empty(),
        },
{
    let ghost iv = index_view(idx@);
    assert(iv.subrange(0, iv.len() as int) =~= iv);
    let mut i: usize = 0;
    while i < idx.len()
        invariant
            i <= idx@.len(),
            iv == index_view(idx@),
            defs_for(iv, m@) == defs_for(iv.subrange(i as int, iv.len() as int), m@),
        decreases idx@.len() - i,
    {
        let ghost rest = iv.subrange(i as int, iv.len() as int);
        assert(rest[0] == iv[i as int]);
        if str_eq(idx[i].0.as_str(), m) {
            return Some(i);
        }
        assert(rest.subrange(1, rest.len() as int) =~= iv.subrange(i + 1, iv.len() as int));
        i = i + 1;
    }
    None
}

fn macro_guard_line_exec(m: &str, defs: &Vec<(String, i64)>) -> (r: String)
    ensures
        r@ == macro_guard_line(m@, sites_view(defs@)),
{
    let ghost dv = sites_view(defs@);
    if defs.len() == 0 {
        let mut l = "- **`".to_string();
        push_str(&mut l, m);
        push_str(&mut l, NOT_VISIBLE_REST);
        return l;
    }
    let n: usize = if defs.len() < 5 {
        defs.len()
    } else {
        5
    };
    let ghost want = first_n(dv, 5).map_values(|p: (Seq<char>, int)| site_text(p));
    let mut shown: Vec<String> = Vec::new();
    let mut i: usize = 0;
    while i < n
        invariant
            i <= n <= defs@.len(),
            n == (if defs@.len() < 5 {
                defs@.len()
            } else {
                5
            }),
            dv == sites_view(defs@),
            want == first_n(dv, 5).map_values(|p: (Seq<char>, int)| site_text(p)),
            strings_view(shown@) == want.take(i as int),
        decreases n - i,
    {
        let mut t = defs[i].0.clone();
        push_str(&mut t, ":");
        push_signed(&mut t, defs[i].1);
        let ghost before = strings_view(shown@);
        let ghost tv = t@;
        shown.push(t);
        proof {
            assert(tv == want[i as int]);
            assert(strings_view(shown@) =~= before.push(tv));
            assert(want.take(i + 1) =~= want.take(i as int).push(want[i as int]));
        }
        i = i + 1;
    }
    assert(want.take(i as int) =~= want);
    let mut l = "- **`".to_string();
    push_str(&mut l, m);
    push_str(&mut l, "!` registration** - expansion READABLE inline in the workspace at ");
    push_str(&mut l, join_strings(&shown, ", ").as_str());
    if defs.len() > 5 {
        push_str(&mut l, " (+ ");
        push_decimal(&mut l, defs.len() - 5);
        push_str(&mut l, " more definition site(s))");
    } else {
        assert(l@ + Seq::<char>::empty() =~= l@);
    }
    push_str(&mut l, READABLE_REST);
    l
}

/// The lines of the unresolved-guardrails section: each registration
/// macro with where its expansion can be read inline (first five
/// definition sites from the index) or that none was found, each detected
/// seam, or a note that nothing was seeded.
pub fn guardrail_lines(
    registration_macros: &Vec<String>,
    index: &Vec<(String, Vec<(String, i64)>)>,
    seams: &Vec<DetectedSeam>,
) -> (r: Vec<String>)
    ensures
        strings_view(r@) == guardrail_view(strings_view(registration_macros@), index_view(index@), seams@),
{
    let ghost mv = strings_view(registration_macros@);
    let ghost iv = index_view(index@);
    let mut lines: Vec<String> = Vec::new();
    push_line(&mut lines, "## 6. UNRESOLVED guardrails".to_string());
    push_line(&mut lines, String::new());
    push_line(&mut lines, GUARDRAIL_INTRO.to_string());
    push_line(&mut lines, String::new());
    let ghost head = strings_view(lines@);
    let ghost mrows = mv.map_values(|m: Seq<char>| macro_guard_line(m, defs_for(iv, m)));
    let empty_defs: Vec<(String, i64)> = Vec::new();
    let mut i: usize = 0;
    while i < registration_macros.len()
        invariant
            i <= registration_macros@.len(),
            mv == strings_view(registration_macros@),
            iv == index_view(index@),
            mrows == mv.map_values(|m: Seq<char>| macro_guard_line(m, defs_for(iv, m))),
            empty_defs@.len() == 0,
            strings_view(lines@) == head + mrows.take(i as int),
        decreases registration_macros@.len() - i,
    {
        let m = registration_macros[i].as_str();
        let l = match defs_for_exec(index, m) {
            Some(k) => macro_guard_line_exec(m, &index[k].1),
            None => {
                assert(sites_view(empty_defs@) =~= Seq::<(Seq<char>, int)>::empty());
                macro_guard_line_exec(m, &empty_defs)
            },
        };
        push_line(&mut lines, l);
        assert(mrows.take(i + 1) =~= mrows.take(i as int).push(mrows[i as int]));
        assert(strings_view(lines@) =~= head + mrows.take(i + 1));
        i = i + 1;
    }
    assert(mrows.take(i as int) =~= mrows);
    let ghost with_macs = strings_view(lines@);
    let ghost srows = seams@.map_values(|s: DetectedSeam| seam_title_line(s));
    let mut j: usize = 0;
    while j < seams.len()
        invariant
            j <= seams@.len(),
            srows == seams@.map_values(|s: DetectedSeam| seam_title_line(s)),
            strings_view(lines@) == with_macs + srows.take(j as int),
        decreases seams@.len() - j,
    {
        let s = &seams[j];
        let mut l = "- **".to_string();
        push_str(&mut l, s.title.as_str());
        push_str(&mut l, "** - ");
        push_str(&mut l, s.description.as_str());
        push_line(&mut lines, l);
        assert(srows.take(j + 1) =~= srows.take(j as int).push(srows[j as int]));
        assert(strings_view(lines@) =~= with_macs + srows.take(j + 1));
        j = j + 1;
    }
    assert(srows.take(j as int) =~= srows);
    let ghost with_seams = strings_view(lines@);
    if registration_macros.len() == 0 && seams.len() == 0 {
        push_line(&mut lines, NONE_SEEDED.to_string());
    }
    push_line(&mut lines, String::new());
    assert(strings_view(lines@) =~= guardrail_view(mv, iv, seams@));
    lines
}

pub const UNVERIFIED_DOC: &'static str = "  *(why: unverified - no doc)*";

/// The usage suffix of a vocabulary line: `  *(N unit[s])*` for a used
/// item, nothing for an unused one.
pub open spec fn usage_suffix(u: nat, unit: Seq<char>) -> Seq<char> {
    if u > 0 {
        "  *("@ + decimal_view(u) + " "@ + unit + (if u != 1 {
            "s"@
        } else {
            Seq::empty()
        }) + ")*"@
    } else {
        Seq::empty()
    }
}

/// The doc suffix of a vocabulary line: the first 120 characters of a
/// non-empty doc comment, else the unverified mark.
pub open spec fn doc_suffix(d: Option<String>) -> Seq<char> {
    match d {
        Some(x) => if x@.len() > 0 {
            " - doc: "@ + first_n(x@, 120)
        } else {
            UNVERIFIED_DOC@
        },
        None => UNVERIFIED_DOC@,
    }
}

/// The vocabulary line of a trait.
pub open spec fn trait_vocab_line(r: FactRecord, u: nat) -> Seq<char> {
    "- trait `"@ + text_or_empty(r.name) + "` - "@ + span_view(r) + usage_suffix(u, "impl"@) + doc_suffix(r.doc)
}

/// The vocabulary line of a type.
pub open spec fn type_vocab_line(r: FactRecord, u: nat) -> Seq<char> {
    "- `"@ + text_or_empty(r.kind) + " "@ + text_or_empty(r.name) + "` - "@ + span_view(r) + usage_suffix(u, "usage"@)
        + doc_suffix(r.doc)
}

/// The opening paragraph of the core vocabulary, naming the core crate.
pub open spec fn vocab_intro(core: Option<Seq<char>>) -> Seq<char> {
    "Most-depended-on crate: **"@ + (match core {
        Some(c) => c,
        None => "None"@,
    }) + "** - its public types are the vocabulary other crates speak in. Items below are ranked by impl-block usage (descending) with alphabetical-by-name as the tiebreaker (0.0.4 patch 2; was alphabetical at 0.0.3). Confirm and describe each (what / where load-bearing; why from doc-comments else unverified):"@
}

/// The lines of the core-vocabulary section for a core crate and its ranked
/// traits and types (positions with usage counts).
pub open spec fn vocab_section(
    core: Option<Seq<char>>,
    ranked_traits: Seq<(int, nat)>,
    ranked_types: Seq<(int, nat)>,
    types: Seq<FactRecord>,
    traits: Seq<FactRecord>,
) -> Seq<Seq<char>> {
    seq!["## 2. Core type vocabulary"@, Seq::empty(), vocab_intro(core), Seq::empty()] + first_n(
        ranked_traits,
        40,
    ).map_values(|p: (int, nat)| trait_vocab_line(traits[p.0], p.1)) + first_n(ranked_types, 40).map_values(
        |p: (int, nat)| type_vocab_line(types[p.0], p.1),
    ) + seq![Seq::<char>::empty()]
}

/// The lines of the core-vocabulary section.
pub open spec fn vocabulary_lines_view(v: CoreVocabulary, types: Seq<FactRecord>, traits: Seq<FactRecord>) -> Seq<Seq<char>> {
    vocab_section(opt_view(v.core), ranked_view(v.traits@), ranked_view(v.types@), types, traits)
}

fn usage_suffix_exec(out: &mut String, u: usize, unit: &str)
    ensures
        final(out)@ == old(out)@ + usage_suffix(u as nat, unit@),
{
    if u > 0 {
        push_str(out, "  *(");
        push_decimal(out, u);
        push_str(out, " ");
        push_str(out, unit);
        if u != 1 {
            push_str(out, "s");
        } else {
            assert(out@ + Seq::<char>::empty() =~= out@);
        }
        push_str(out, ")*");
    } else {
        assert(out@ + Seq::<char>::empty() =~= out@);
    }
}

fn doc_suffix_exec(out: &mut String, d: &Option<String>)
    ensures
        final(out)@ == old(out)@ + doc_suffix(*d),
{
    match d {
        Some(x) => {
            if !x.as_str().is_empty() {
                push_str(out, " - doc: ");
                push_str(out, truncate_chars(x.as_str(), 120).as_str());
            } else {
                push_str(out, UNVERIFIED_DOC);
            }
        },
        None => push_str(out, UNVERIFIED_DOC),
    }
}

/// The lines of the core-vocabulary section: the core crate, then up to 40
/// traits and up to 40 types of its vocabulary in rank order, each with its
/// span, usage count and doc comment.
pub fn vocabulary_lines(v: &CoreVocabulary, types: &Vec<FactRecord>, traits: &Vec<FactRecord>) -> (r: Vec<String>)
    requires
        forall|k: int| 0 <= k < v.types@.len() ==> (#[trigger] v.types@[k]).0 < types@.len(),
        forall|k: int| 0 <= k < v.traits@.len() ==> (#[trigger] v.traits@[k]).0 < traits@.len(),
    ensures
        strings_view(r@) == vocabulary_lines_view(*v, types@, traits@),
{
    let mut lines: Vec<String> = Vec::new();
    push_line(&mut lines, "## 2. Core type vocabulary".to_string());
    push_line(&mut lines, String::new());
    let mut intro = "Most-depended-on crate: **".to_string();
    match &v.core {
        Some(c) => push_str(&mut intro, c.as_str()),
        None => push_str(&mut intro, "None"),
    }
    push_str(&mut intro, "** - its public types are the vocabulary other crates speak in. Items below are ranked by impl-block usage (descending) with alphabetical-by-name as the tiebreaker (0.0.4 patch 2; was alphabetical at 0.0.3). Confirm and describe each (what / where load-bearing; why from doc-comments else unverified):");
    push_line(&mut lines, intro);
    push_line(&mut lines, String::new());
    let ghost head = strings_view(lines@);
    let ghost trows = first_n(ranked_view(v.traits@), 40).map_values(|p: (int, nat)| trait_vocab_line(traits@[p.0], p.1));
    let nt: usize = if v.traits.len() < 40 {
        v.traits.len()
    } else {
        40
    };
    let mut i: usize = 0;
    while i < nt
        invariant
            i <= nt <= v.traits@.len(),
            nt == (if v.traits@.len() < 40 {
                v.traits@.len()
            } else {
                40
            }),
            forall|k: int| 0 <= k < v.traits@.len() ==> (#[trigger] v.traits@[k]).0 < traits@.len(),
            trows == first_n(ranked_view(v.traits@), 40).map_values(|p: (int, nat)| trait_vocab_line(traits@[p.0], p.1)),
            strings_view(lines@) == head + trows.take(i as int),
        decreases nt - i,
    {
        let (pos, usage) = v.traits[i];
        let t = &traits[pos];
        let mut l = "- trait `".to_string();
        push_str(&mut l, owned_or_empty(&t.name).as_str());
        push_str(&mut l, "` - ");
        push_str(&mut l, span(t).as_str());
        usage_suffix_exec(&mut l, usage, "impl");
        doc_suffix_exec(&mut l, &t.doc);
        push_line(&mut lines, l);
        assert(trows[i as int] == trait_vocab_line(traits@[pos as int], usage as nat));
        assert(trows.take(i + 1) =~= trows.take(i as int).push(trows[i as int]));
        assert(strings_view(lines@) =~= head + trows.take(i + 1));
        i = i + 1;
    }
    assert(trows.take(i as int) =~= trows);
    let ghost mid = strings_view(lines@);
    let ghost yrows = first_n(ranked_view(v.types@), 40).map_values(|p: (int, nat)| type_vocab_line(types@[p.0], p.1));
    let ny: usize = if v.types.len() < 40 {
        v.types.len()
    } else {
        40
    };
    let mut j: usize = 0;
    while j < ny
        invariant
            j <= ny <= v.types@.len(),
            ny == (if v.types@.len() < 40 {
                v.types@.len()
            } else {
                40
            }),
            forall|k: int| 0 <= k < v.types@.len() ==> (#[trigger] v.types@[k]).0 < types@.len(),
            yrows == first_n(ranked_view(v.types@), 40).map_values(|p: (int, nat)| type_vocab_line(types@[p.0], p.1)),
            strings_view(lines@) == mid + yrows.take(j as int),
        decreases ny - j,
    {
        let (pos, usage) = v.types[j];
        let t = &types[pos];
        let mut l = "- `".to_string();
        push_str(&mut l, owned_or_empty(&t.kind).as_str());
        push_str(&mut l, " ");
        push_str(&mut l, owned_or_empty(&t.name).as_str());
        push_str(&mut l, "` - ");
        push_str(&mut l, span(t).as_str());
        usage_suffix_exec(&mut l, usage, "usage");
        doc_suffix_exec(&mut l, &t.doc);
        push_line(&mut lines, l);
        assert(yrows[j as int] == type_vocab_line(types@[pos as int], usage as nat));
        assert(yrows.take(j + 1) =~= yrows.take(j as int).push(yrows[j as int]));
        assert(strings_view(lines@) =~= mid + yrows.take(j + 1));
        j = j + 1;
    }
    assert(yrows.take(j as int) =~= yrows);
    push_line(&mut lines, String::new());
    assert(strings_view(lines@) =~= vocabulary_lines_view(*v, types@, traits@));
    lines
}

/// One unit of the workspace as the crate map shows it: its key, the kind
/// of its provenance (`host`, `submodule`, or in-repo vendored), its member
/// count, whether its source is present, and a submodule's URL and revision.
#[derive(Debug, Clone)]
pub struct WorkspaceUnit {
    pub key: String,
    pub kind: Option<String>,
    pub members: usize,
    pub populated: bool,
    pub url: Option<String>,
    pub rev: Option<String>,
}

/// What the crate / region map is drawn from: the component count, the
/// workspace roots, each component's crates, the workspace units, the
/// member crates (in the fingerprint's order) and the clustering settings.
#[derive(Debug, Clone)]
pub struct RegionMap {
    pub n_components: i64,
    pub n_roots: usize,
    pub components: Vec<Vec<String>>,
    pub units: Vec<WorkspaceUnit>,
    pub members: Vec<MemberRow>,
    pub cluster_threshold: usize,
    pub cluster_min_size: usize,
}

pub const SINGLE_COMPONENT: &'static str = "Single connected component. Crates and their internal dependencies:";

pub const UNITS_HEAD: &'static str = "Workspace units (identity = provenance; a vendored unit is a distinct identity from any same-named project):";

pub const AGENT_CLUSTERS: &'static str = "**[AGENT]** In 2-4 sentences each, describe each crate cluster (S1.1) and the load-bearing standalone crates from S1.2 / 'Other'. Populate *why* only from crate-level doc-comments / README; where absent, write `why: unverified`.";

pub const AGENT_CRATES: &'static str = "**[AGENT]** In 2-4 sentences each (what / why / where), describe the role of the core crates. Populate *why* only from crate-level doc-comments / README; where absent, write `why: unverified`.";

/// The regional paragraph of a workspace of several components or roots.
pub open spec fn regional_text(n: int, roots: nat) -> Seq<char> {
    "**Regional** - "@ + signed_view(n) + " disjoint component(s), "@ + decimal_view(roots)
        + " workspace root(s). Each component is a region; the seam-spine (S3) is the join. **[AGENT]** name each region's role and the named seams connecting it to the others; if two regions share no traced data path, record that as an UNRESOLVED rather than inventing a link."@
}

/// The line of the `i`-th component (counted from one).
pub open spec fn region_line(i: int, comp: Seq<Seq<char>>) -> Seq<char> {
    "- region "@ + decimal_view((i + 1) as nat) + ": "@ + join_view(comp, ", "@)
}

/// The region lines: the regional paragraph and one line per component
/// when the workspace has several components or roots, else the
/// single-component line.
pub open spec fn region_part(m: RegionMap) -> Seq<Seq<char>> {
    if m.n_components > 1 || m.n_roots > 1 {
        seq![regional_text(m.n_components as int, m.n_roots as nat), Seq::empty()] + Seq::new(
            m.components@.len(),
            |i: int| region_line(i, strings_view(m.components@[i]@)),
        )
    } else {
        seq![SINGLE_COMPONENT@]
    }
}

/// The line of a workspace unit.
pub open spec fn unit_line(u: WorkspaceUnit) -> Seq<char> {
    let k = u.key@;
    let kind = or_unknown(u.kind);
    if kind == "host"@ {
        "- `"@ + k + "` - host workspace ("@ + decimal_view(u.members as nat) + " members)"@
    } else if kind == "submodule"@ {
        if u.populated {
            "- `"@ + k + "` - vendored submodule "@ + or_unknown(u.url) + " @ "@ + or_unknown(u.rev) + " ("@
                + decimal_view(u.members as nat) + " members scanned)"@
        } else {
            "- `"@ + k + "` - vendored submodule "@ + or_unknown(u.url) + " @ "@ + or_unknown(u.rev)
                + " (source not populated in this clone; not scanned)"@
        }
    } else if u.populated {
        "- `"@ + k + "` - in-repo vendored source ("@ + decimal_view(u.members as nat) + " members scanned)"@
    } else {
        "- `"@ + k + "` - in-repo vendored source (not populated; not scanned)"@
    }
}

/// The order of the units: the host unit `.` first, then by key.
pub open spec fn unit_key(u: WorkspaceUnit) -> KeyView {
    KeyView {
        num: if u.key@ == "."@ {
            0
        } else {
            1
        },
        first: u.key@,
        second: Seq::empty(),
        tail: 0,
    }
}

/// The unit lines, present when the repository holds more than one unit.
pub open spec fn units_part(units: Seq<WorkspaceUnit>) -> Seq<Seq<char>> {
    if units.len() > 1 {
        seq![UNITS_HEAD@] + stable_order(units.map_values(|u: WorkspaceUnit| unit_key(u))).map_values(
            |i: int| unit_line(units[i]),
        ) + seq![Seq::<char>::empty()]
    } else {
        Seq::empty()
    }
}

/// The clusters and unclustered crates of the members' names.
pub open spec fn member_clusters(m: RegionMap) -> (Seq<(Seq<char>, Seq<Seq<char>>)>, Seq<Seq<char>>) {
    clusters_by_prefix(member_names(m.members@), m.cluster_min_size as nat)
}

/// Whether the crate map groups crates into clusters: more members than
/// the threshold, and at least one cluster formed.
pub open spec fn uses_clusters(m: RegionMap) -> bool {
    m.members@.len() > m.cluster_threshold && member_clusters(m).0.len() > 0
}

/// The separator a cluster prefix was split at.
pub open spec fn prefix_sep(p: Seq<char>) -> Seq<char> {
    if contains_seq(p, "_"@) {
        "_"@
    } else {
        "-"@
    }
}

/// The line of a cluster: its prefix pattern, size and sorted members.
pub open spec fn cluster_line(c: (Seq<char>, Seq<Seq<char>>)) -> Seq<char> {
    "- **`"@ + c.0 + prefix_sep(c.0) + "*`** ("@ + decimal_view(c.1.len()) + " crates): "@ + join_view(
        sorted_view(c.1),
        ", "@,
    )
}

/// The sort key of a cluster: its prefix.
pub open spec fn cluster_key(c: (Seq<char>, Seq<Seq<char>>)) -> KeyView {
    KeyView { num: 0, first: c.0, second: Seq::empty(), tail: 0 }
}

/// The clustering paragraph.
pub open spec fn cluster_text(n: nat, threshold: nat, min_size: nat) -> Seq<char> {
    "Workspace has "@ + decimal_view(n)
        + " crates; the prefix-grouping below surfaces architectural clusters above the per-crate detail. Threshold for clustering: "@
        + decimal_view(threshold) + " crates (env: ORIENT_CLUSTER_THRESHOLD). Minimum cluster size: "@ + decimal_view(
        min_size,
    )
        + " (env: ORIENT_CLUSTER_MIN_SIZE). Snake-case (`name_x`) and kebab-case (`name-x`) prefixes are kept distinct."@
}

/// The cluster lines, present when the map groups crates into clusters:
/// the clusters in ascending order of prefix, then the unclustered crates.
pub open spec fn cluster_part(m: RegionMap) -> Seq<Seq<char>> {
    if uses_clusters(m) {
        let cl = member_clusters(m);
        seq![
            "### 1.1 Crate clusters (by name prefix)"@,
            Seq::empty(),
            cluster_text(m.members@.len(), m.cluster_threshold as nat, m.cluster_min_size as nat),
            Seq::empty(),
        ] + stable_order(cl.0.map_values(|c: (Seq<char>, Seq<Seq<char>>)| cluster_key(c))).map_values(
            |i: int| cluster_line(cl.0[i]),
        ) + (if cl.1.len() > 0 {
            seq!["- **Other** ("@ + decimal_view(cl.1.len()) + " crates): "@ + join_view(cl.1, ", "@)]
        } else {
            Seq::empty()
        }) + seq![Seq::empty(), "### 1.2 Per-crate detail"@, Seq::empty()]
    } else {
        Seq::empty()
    }
}

/// The lines of the crate / region map section.
pub open spec fn crate_map_view(m: RegionMap) -> Seq<Seq<char>> {
    seq!["## 1. Crate / region map"@, Seq::empty()] + region_part(m) + seq![Seq::<char>::empty()] + units_part(
        m.units@,
    ) + cluster_part(m) + member_lines_view(m.members@) + seq![
        Seq::empty(),
        if uses_clusters(m) {
            AGENT_CLUSTERS@
        } else {
            AGENT_CRATES@
        },
        Seq::empty(),
    ]
}

fn unit_line_exec(u: &WorkspaceUnit) -> (r: String)
    ensures
        r@ == unit_line(*u),
{
    let kind = or_unknown_exec(&u.kind);
    let mut l = "- `".to_string();
    push_str(&mut l, u.key.as_str());
    if str_eq(kind.as_str(), "host") {
        push_str(&mut l, "` - host workspace (");
        push_decimal(&mut l, u.members);
        push_str(&mut l, " members)");
    } else if str_eq(kind.as_str(), "submodule") {
        push_str(&mut l, "` - vendored submodule ");
        push_str(&mut l, or_unknown_exec(&u.url).as_str());
        push_str(&mut l, " @ ");
        push_str(&mut l, or_unknown_exec(&u.rev).as_str());
        if u.populated {
            push_str(&mut l, " (");
            push_decimal(&mut l, u.members);
            push_str(&mut l, " members scanned)");
        } else {
            push_str(&mut l, " (source not populated in this clone; not scanned)");
        }
    } else if u.populated {
        push_str(&mut l, "` - in-repo vendored source (");
        push_decimal(&mut l, u.members);
        push_str(&mut l, " members scanned)");
    } else {
        push_str(&mut l, "` - in-repo vendored source (not populated; not scanned)");
    }
    l
}

fn units_lines(units: &Vec<WorkspaceUnit>) -> (r: Vec<String>)
    ensures
        strings_view(r@) == units_part(units@),
{
    let mut lines: Vec<String> = Vec::new();
    if units.len() <= 1 {
        assert(strings_view(lines@) =~= units_part(units@));
        return lines;
    }
    push_line(&mut lines, UNITS_HEAD.to_string());
    let ghost kf = |u: WorkspaceUnit| unit_key(u);
    let mut keys: Vec<SortKey> = Vec::new();
    let mut i: usize = 0;
    while i < units.len()
        invariant
            i <= units@.len(),
            kf == (|u: WorkspaceUnit| unit_key(u)),
            keys_view(keys@) == units@.take(i as int).map_values(kf),
        decreases units@.len() - i,
    {
        let num: i128 = if str_eq(units[i].key.as_str(), ".") {
            0
        } else {
            1
        };
        let k = SortKey { num, first: units[i].key.clone(), second: String::new(), tail: 0 };
        let ghost before = keys_view(keys@);
        let ghost kv = k@;
        keys.push(k);
        proof {
            assert(kv == kf(units@[i as int]));
            assert(keys_view(keys@) =~= before.push(kv));
            assert(units@.take(i + 1).map_values(kf) =~= units@.take(i as int).map_values(kf).push(kf(units@[i as int])));
        }
        i = i + 1;
    }
    assert(units@.take(i as int) =~= units@);
    let ord = stable_order_exec(&keys);
    let ghost pv = positions_view(ord@);
    let ghost rows = stable_order(units@.map_values(kf)).map_values(|x: int| unit_line(units@[x]));
    let ghost head = strings_view(lines@);
    let mut j: usize = 0;
    while j < ord.len()
        invariant
            j <= ord@.len(),
            ord@.len() == units@.len(),
            pv == positions_view(ord@),
            pv == stable_order(units@.map_values(kf)),
            forall|k: int| 0 <= k < ord@.len() ==> ord@[k] < units@.len(),
            rows == stable_order(units@.map_values(kf)).map_values(|x: int| unit_line(units@[x])),
            strings_view(lines@) == head + rows.take(j as int),
        decreases ord@.len() - j,
    {
        push_line(&mut lines, unit_line_exec(&units[ord[j]]));
        proof {
            assert(pv[j as int] == ord@[j as int] as int);
            assert(rows.take(j + 1) =~= rows.take(j as int).push(rows[j as int]));
        }
        assert(strings_view(lines@) =~= head + rows.take(j + 1));
        j = j + 1;
    }
    assert(rows.take(j as int) =~= rows);
    push_line(&mut lines, String::new());
    assert(strings_view(lines@) =~= units_part(units@));
    lines
}

fn cluster_line_exec(c: &(String, Vec<String>)) -> (r: String)
    ensures
        r@ == cluster_line((c.0@, strings_view(c.1@))),
{
    let mut l = "- **`".to_string();
    push_str(&mut l, c.0.as_str());
    if str_contains(c.0.as_str(), "_") {
        push_str(&mut l, "_");
    } else {
        push_str(&mut l, "-");
    }
    push_str(&mut l, "*`** (");
    push_decimal(&mut l, c.1.len());
    push_str(&mut l, " crates): ");
    let sorted = sort_strings(&c.1);
    push_str(&mut l, join_strings(&sorted, ", ").as_str());
    l
}

fn clusters_lines(m: &RegionMap) -> (r: Vec<String>)
    ensures
        strings_view(r@) == cluster_part(*m),
{
    let mut lines: Vec<String> = Vec::new();
    if m.members.len() <= m.cluster_threshold {
        assert(strings_view(lines@) =~= cluster_part(*m));
        return lines;
    }
    let mut names: Vec<String> = Vec::new();
    let mut i: usize = 0;
    while i < m.members.len()
        invariant
            i <= m.members@.len(),
            strings_view(names@) == member_names(m.members@).take(i as int),
        decreases m.members@.len() - i,
    {
        let ghost before = strings_view(names@);
        names.push(m.members[i].name.clone());
        assert(strings_view(names@) =~= before.push(m.members@[i as int].name@));
        assert(member_names(m.members@).take(i + 1) =~= member_names(m.members@).take(i as int).push(
            m.members@[i as int].name@,
        ));
        i = i + 1;
    }
    assert(member_names(m.members@).take(i as int) =~= member_names(m.members@));
    let (clusters, others) = cluster_rows(&names, m.cluster_min_size);
    let ghost cl = member_clusters(*m);
    assert(clusters_view(clusters@) == cl.0);
    assert(strings_view(others@) == cl.1);
    if clusters.len() == 0 {
        assert(strings_view(lines@) =~= cluster_part(*m));
        return lines;
    }
    push_line(&mut lines, "### 1.1 Crate clusters (by name prefix)".to_string());
    push_line(&mut lines, String::new());
    let mut t = "Workspace has ".to_string();
    push_decimal(&mut t, m.members.len());
    push_str(&mut t, " crates; the prefix-grouping below surfaces architectural clusters above the per-crate detail. Threshold for clustering: ");
    push_decimal(&mut t, m.cluster_threshold);
    push_str(&mut t, " crates (env: ORIENT_CLUSTER_THRESHOLD). Minimum cluster size: ");
    push_decimal(&mut t, m.cluster_min_size);
    push_str(&mut t, " (env: ORIENT_CLUSTER_MIN_SIZE). Snake-case (`name_x`) and kebab-case (`name-x`) prefixes are kept distinct.");
    push_line(&mut lines, t);
    push_line(&mut lines, String::new());
    let ghost head = strings_view(lines@);
    let ghost kf = |c: (Seq<char>, Seq<Seq<char>>)| cluster_key(c);
    let mut keys: Vec<SortKey> = Vec::new();
    let mut k: usize = 0;
    while k < clusters.len()
        invariant
            k <= clusters@.len(),
            kf == (|c: (Seq<char>, Seq<Seq<char>>)| cluster_key(c)),
            cl.0 == clusters_view(clusters@),
            keys_view(keys@) == cl.0.take(k as int).map_values(kf),
        decreases clusters@.len() - k,
    {
        let key = SortKey { num: 0, first: clusters[k].0.clone(), second: String::new(), tail: 0 };
        let ghost before = keys_view(keys@);
        let ghost kv = key@;
        keys.push(key);
        proof {
            assert(kv == kf(cl.0[k as int]));
            assert(keys_view(keys@) =~= before.push(kv));
            assert(cl.0.take(k + 1).map_values(kf) =~= cl.0.take(k as int).map_values(kf).push(kf(cl.0[k as int])));
        }
        k = k + 1;
    }
    assert(cl.0.take(k as int) =~= cl.0);
    let ord = stable_order_exec(&keys);
    let ghost pv = positions_view(ord@);
    let ghost rows = stable_order(cl.0.map_values(kf)).map_values(|x: int| cluster_line(cl.0[x]));
    let mut j: usize = 0;
    while j < ord.len()
        invariant
            j <= ord@.len(),
            ord@.len() == clusters@.len(),
            pv == positions_view(ord@),
            pv == stable_order(cl.0.map_values(kf)),
            cl.0 == clusters_view(clusters@),
            forall|x: int| 0 <= x < ord@.len() ==> ord@[x] < clusters@.len(),
            rows == stable_order(cl.0.map_values(kf)).map_values(|x: int| cluster_line(cl.0[x])),
            strings_view(lines@) == head + rows.take(j as int),
        decreases ord@.len() - j,
    {
        push_line(&mut lines, cluster_line_exec(&clusters[ord[j]]));
        proof {
            assert(pv[j as int] == ord@[j as int] as int);
            assert(cl.0[ord@[j as int] as int] == (clusters@[ord@[j as int] as int].0@, strings_view(
                clusters@[ord@[j as int] as int].1@,
            )));
            assert(rows.take(j + 1) =~= rows.take(j as int).push(rows[j as int]));
        }
        assert(strings_view(lines@) =~= head + rows.take(j + 1));
        j = j + 1;
    }
    assert(rows.take(j as int) =~= rows);
    let ghost with_rows = strings_view(lines@);
    if others.len() > 0 {
        let mut l = "- **Other** (".to_string();
        push_decimal(&mut l, others.len());
        push_str(&mut l, " crates): ");
        push_str(&mut l, join_strings(&others, ", ").as_str());
        push_line(&mut lines, l);
    }
    push_line(&mut lines, String::new());
    push_line(&mut lines, "### 1.2 Per-crate detail".to_string());
    push_line(&mut lines, String::new());
    assert(strings_view(lines@) =~= cluster_part(*m));
    lines
}

fn region_lines(m: &RegionMap) -> (r: Vec<String>)
    ensures
        strings_view(r@) == region_part(*m),
{
    let mut lines: Vec<String> = Vec::new();
    if m.n_components > 1 || m.n_roots > 1 {
        let mut t = "**Regional** - ".to_string();
        push_signed(&mut t, m.n_components);
        push_str(&mut t, " disjoint component(s), ");
        push_decimal(&mut t, m.n_roots);
        push_str(&mut t, " workspace root(s). Each component is a region; the seam-spine (S3) is the join. **[AGENT]** name each region's role and the named seams connecting it to the others; if two regions share no traced data path, record that as an UNRESOLVED rather than inventing a link.");
        push_line(&mut lines, t);
        push_line(&mut lines, String::new());
        let ghost head = strings_view(lines@);
        let ghost rows = Seq::new(m.components@.len(), |i: int| region_line(i, strings_view(m.components@[i]@)));
        let mut i: usize = 0;
        while i < m.components.len()
            invariant
                i <= m.components@.len(),
                rows == Seq::new(m.components@.len(), |i: int| region_line(i, strings_view(m.components@[i]@))),
                strings_view(lines@) == head + rows.take(i as int),
            decreases m.components@.len() - i,
        {
            let mut l = "- region ".to_string();
            push_decimal(&mut l, i + 1);
            push_str(&mut l, ": ");
            push_str(&mut l, join_strings(&m.components[i], ", ").as_str());
            push_line(&mut lines, l);
            assert(rows.take(i + 1) =~= rows.take(i as int).push(rows[i as int]));
            assert(strings_view(lines@) =~= head + rows.take(i + 1));
            i = i + 1;
        }
        assert(rows.take(i as int) =~= rows);
    } else {
        push_line(&mut lines, SINGLE_COMPONENT.to_string());
    }
    assert(strings_view(lines@) =~= region_part(*m));
    lines
}

/// The lines of the crate / region map: the regions when the workspace has
/// several components or roots, the workspace units when there are
/// several (host first), the crate clusters by name prefix when the
/// members outnumber the threshold and some cluster forms, each member
/// crate in ascending order of name, and the describing prompt.
pub fn crate_map_lines(m: &RegionMap) -> (r: Vec<String>)
    ensures
        strings_view(r@) == crate_map_view(*m),
{
    let mut lines: Vec<String> = Vec::new();
    push_line(&mut lines, "## 1. Crate / region map".to_string());
    push_line(&mut lines, String::new());
    push_lines(&mut lines, &region_lines(m));
    push_line(&mut lines, String::new());
    push_lines(&mut lines, &units_lines(&m.units));
    let cl = clusters_lines(m);
    let clustered = cl.len() > 0;
    proof {
        if uses_clusters(*m) {
            assert(cluster_part(*m).len() > 0);
        } else {
            assert(cluster_part(*m).len() == 0);
        }
    }
    push_lines(&mut lines, &cl);
    push_lines(&mut lines, &member_lines(&m.members));
    push_line(&mut lines, String::new());
    if clustered {
        push_line(&mut lines, AGENT_CLUSTERS.to_string());
    } else {
        push_line(&mut lines, AGENT_CRATES.to_string());
    }
    push_line(&mut lines, String::new());
    assert(strings_view(lines@) =~= crate_map_view(*m));
    lines
}

} // verus!
