//! The orientation document of a workspace that is not a container: the
//! rendered header, how it was shaped, the crate / region map, the core
//! vocabulary, the seam spine, the data-flow prompt, the foreign API
//! surface, the guardrails, the authoring guide and the histogram appendix,
//! assembled line by line.

use vstd::prelude::*;
use crate::fingerprint::PatternHistogramEntry;
use crate::foreign::{
    CrateNames, ForeignRootSurface, foreign_api_surface, foreign_surface_view, record_paths_defined, surface_view,
};
use crate::instances::FactRecord;
use crate::metrics::text_or_empty;
use crate::modules::join_view;
use crate::orientation::{
    RegionMap, ShapingFacts, appendix_lines, appendix_view, crate_map_lines, crate_map_view, foreign_root_line,
    foreign_surface_lines, foreign_view, guardrail_lines, guardrail_view, seam_entries, seam_spine_lines,
    seam_spine_view, seam_title_line, shaped_lines, shaped_view, site_line, vocab_section, vocabulary_lines,
};
use crate::reference::join_strings;
use crate::resolution::{opt_view, strings_view};
use crate::routing::{push_line, push_lines};
use crate::seams::{
    DetectedSeam, SeamInventory, SeamSite, detected_seams, detected_view, index_view, macro_defs_index,
    macro_index_view, seam_view, seams_view, site_view,
};
use crate::text::{contains_seq, push_str};
use crate::use_tree::{use_path_defined, use_path_is_defined};
use crate::vocabulary::{core_crate, core_vocabulary, dep_lists_view, vocabulary_view};

verus! {

/// What the orientation document is built from.
#[derive(Debug, Clone)]
pub struct OrientationSources {
    pub shape: ShapingFacts,
    pub region: RegionMap,
    pub dep_lists: Vec<(String, Vec<String>)>,
    pub types: Vec<FactRecord>,
    pub traits: Vec<FactRecord>,
    pub impls: Vec<FactRecord>,
    pub uses: Vec<FactRecord>,
    pub mods: Vec<FactRecord>,
    pub macro_defs: Vec<FactRecord>,
    pub registration_macros: Vec<String>,
    pub inventory: SeamInventory,
    pub crate_names: Vec<CrateNames>,
    pub histogram: Vec<PatternHistogramEntry>,
}

/// `s` without its trailing newlines.
pub open spec fn trim_newlines(s: Seq<char>) -> Seq<char>
    decreases s.len(),
{
    if s.len() > 0 && s.last() == '\n' {
        trim_newlines(s.drop_last())
    } else {
        s
    }
}

fn trim_newlines_exec(s: &str) -> (r: String)
    ensures
        r@ == trim_newlines(s@),
{
    let cs = crate::text::chars_of(s);
    let mut n: usize = cs.len();
    assert(cs@.take(n as int) =~= s@);
    while n > 0 && cs[n - 1] == '\n'
        invariant
            n <= cs@.len(),
            trim_newlines(s@) == trim_newlines(cs@.take(n as int)),
        decreases n,
    {
        assert(cs@.take(n as int).drop_last() =~= cs@.take(n - 1));
        n = n - 1;
    }
    assert(cs@.take(n as int).len() == 0 || cs@.take(n as int).last() != '\n');
    assert(cs@.subrange(0, n as int) =~= cs@.take(n as int));
    crate::text::string_of_range(&cs, 0, n)
}

/// The use records whose paths the use grammar reads (records without a
/// path are kept), in order.
pub open spec fn defined_view(uses: Seq<FactRecord>) -> Seq<FactRecord>
    decreases uses.len(),
{
    if uses.len() == 0 {
        Seq::empty()
    } else {
        let prev = defined_view(uses.drop_last());
        let keep = match uses.last().path {
            Some(p) => use_path_defined(p@),
            None => true,
        };
        if keep {
            prev.push(uses.last())
        } else {
            prev
        }
    }
}

proof fn lemma_defined_view_defined(uses: Seq<FactRecord>)
    ensures
        record_paths_defined(defined_view(uses)),
    decreases uses.len(),
{
    if uses.len() > 0 {
        lemma_defined_view_defined(uses.drop_last());
        let prev = defined_view(uses.drop_last());
        let keep = match uses.last().path {
            Some(p) => use_path_defined(p@),
            None => true,
        };
        if keep {
            let next = prev.push(uses.last());
            assert forall|i: int| 0 <= i < next.len() implies (match (#[trigger] next[i]).path {
                Some(p) => use_path_defined(p@),
                None => true,
            }) by {
                if i < prev.len() {
                    assert(next[i] == prev[i]);
                }
            }
        }
    }
}

fn keeps(u: &FactRecord) -> (r: bool)
    ensures
        r == (match u.path {
            Some(p) => use_path_defined(p@),
            None => true,
        }),
{
    match &u.path {
        Some(p) => use_path_is_defined(p.as_str()),
        None => true,
    }
}

/// The use records whose paths the use grammar reads, in order; records
/// without a path are kept.
pub fn defined_uses(uses: Vec<FactRecord>) -> (r: Vec<FactRecord>)
    ensures
        r@ == defined_view(uses@),
        record_paths_defined(r@),
{
    let ghost all = uses@;
    let ghost n = uses@.len() as int;
    let mut v = uses;
    let mut rev: Vec<FactRecord> = Vec::new();
    while v.len() > 0
        invariant
            v@ == all.take(v@.len() as int),
            v@.len() <= n,
            n == all.len(),
            rev@.len() == n - v@.len(),
            forall|j: int| 0 <= j < rev@.len() ==> #[trigger] rev@[j] == all[n - 1 - j],
        decreases v@.len(),
    {
        let x = v.pop().unwrap();
        assert(all.take(v@.len() + 1 as int).drop_last() =~= all.take(v@.len() as int));
        rev.push(x);
    }
    let mut r: Vec<FactRecord> = Vec::new();
    let ghost mut k: int = 0;
    assert(all.take(0) =~= Seq::<FactRecord>::empty());
    while rev.len() > 0
        invariant
            0 <= k <= n,
            n == all.len(),
            rev@.len() == n - k,
            forall|j: int| 0 <= j < rev@.len() ==> #[trigger] rev@[j] == all[n - 1 - j],
            r@ == defined_view(all.take(k)),
        decreases rev@.len(),
    {
        let x = rev.pop().unwrap();
        assert(x == all[k]);
        assert(all.take(k + 1).drop_last() =~= all.take(k));
        assert(all.take(k + 1).last() == all[k]);
        if keeps(&x) {
            r.push(x);
        }
        proof {
            k = k + 1;
        }
    }
    assert(all.take(k) =~= all);
    proof {
        lemma_defined_view_defined(all);
    }
    r
}

/// The classification tag the authoring guide is rendered with:
/// `Workspace classification: **label**. `, empty without a label.
pub open spec fn classification_tag_view(label: Option<String>) -> Seq<char> {
    match label {
        Some(l) => "Workspace classification: **"@ + l@ + "**. "@,
        None => Seq::empty(),
    }
}

/// The classification tag for the authoring guide.
pub fn classification_tag(label: &Option<String>) -> (r: String)
    ensures
        r@ == classification_tag_view(*label),
{
    match label {
        Some(l) => {
            let mut t = "Workspace classification: **".to_string();
            push_str(&mut t, l.as_str());
            push_str(&mut t, "**. ");
            t
        },
        None => String::new(),
    }
}

proof fn lemma_site_line_by_view(a: SeamSite, b: SeamSite)
    requires
        site_view(a) == site_view(b),
    ensures
        site_line(a) == site_line(b),
{
    assert(text_or_empty(a.path) == text_or_empty(b.path)) by {
        match a.path {
            Some(_) => {},
            None => {},
        }
        match b.path {
            Some(_) => {},
            None => {},
        }
    }
    assert(crate::routing::or_unknown(a.file) == crate::routing::or_unknown(b.file)) by {
        match a.file {
            Some(_) => {},
            None => {},
        }
        match b.file {
            Some(_) => {},
            None => {},
        }
    }
}

proof fn lemma_seam_entries_by_view(a: Seq<DetectedSeam>, b: Seq<DetectedSeam>)
    requires
        seams_view(a) == seams_view(b),
    ensures
        seam_entries(a) == seam_entries(b),
        a.map_values(|s: DetectedSeam| seam_title_line(s)) == b.map_values(|s: DetectedSeam| seam_title_line(s)),
    decreases a.len(),
{
    assert(a.len() == seams_view(a).len());
    if a.len() > 0 {
        assert forall|k: int| 0 <= k < a.len() - 1 implies #[trigger] seams_view(a.drop_last())[k] == seams_view(
            b.drop_last(),
        )[k] by {
            assert(seams_view(a)[k] == seam_view(a[k]));
            assert(seams_view(b)[k] == seam_view(b[k]));
        }
        assert(seams_view(a.drop_last()) =~= seams_view(b.drop_last()));
        lemma_seam_entries_by_view(a.drop_last(), b.drop_last());
        let x = a.last();
        let y = b.last();
        assert(seam_view(x) == seams_view(a)[a.len() - 1]);
        assert(seam_view(y) == seams_view(b)[b.len() - 1]);
        assert(x.sites@.map_values(|s: SeamSite| site_view(s)) == y.sites@.map_values(|s: SeamSite| site_view(s)));
        assert(x.sites@.map_values(|s: SeamSite| site_view(s)).len() == x.sites@.len());
        assert(y.sites@.map_values(|s: SeamSite| site_view(s)).len() == y.sites@.len());
        assert forall|k: int| 0 <= k < x.sites@.len() implies site_line(#[trigger] x.sites@[k]) == site_line(y.sites@[k]) by {
            assert(x.sites@.map_values(|s: SeamSite| site_view(s))[k] == site_view(x.sites@[k]));
            assert(y.sites@.map_values(|s: SeamSite| site_view(s))[k] == site_view(y.sites@[k]));
            lemma_site_line_by_view(x.sites@[k], y.sites@[k]);
        }
        assert(x.sites@.map_values(|s: SeamSite| site_line(s)) =~= y.sites@.map_values(|s: SeamSite| site_line(s)));
        assert forall|k: int| 0 <= k < a.len() implies #[trigger] seam_title_line(a[k]) == seam_title_line(b[k]) by {
            assert(seams_view(a)[k] == seam_view(a[k]));
            assert(seams_view(b)[k] == seam_view(b[k]));
        }
        assert(a.map_values(|s: DetectedSeam| seam_title_line(s)) =~= b.map_values(|s: DetectedSeam| seam_title_line(s)));
    } else {
        assert(a.map_values(|s: DetectedSeam| seam_title_line(s)) =~= b.map_values(|s: DetectedSeam| seam_title_line(s)));
    }
}

proof fn lemma_foreign_view_by_view(a: Seq<ForeignRootSurface>, b: Seq<ForeignRootSurface>)
    requires
        surface_view(a) == surface_view(b),
    ensures
        foreign_view(a) == foreign_view(b),
{
    assert(a.len() == surface_view(a).len());
    assert forall|k: int| 0 <= k < a.len() implies #[trigger] foreign_root_line(a[k]) == foreign_root_line(b[k]) by {
        assert(surface_view(a)[k] == surface_view(b)[k]);
    }
    assert(a.map_values(|e: ForeignRootSurface| foreign_root_line(e)) =~= b.map_values(
        |e: ForeignRootSurface| foreign_root_line(e),
    ));
}

/// A seam list with the detected seams' values.
pub open spec fn some_detected(src: OrientationSources, ffi_note: Seq<char>) -> Seq<DetectedSeam> {
    choose|s: Seq<DetectedSeam>|
        seams_view(s) == detected_view(
            src.inventory,
            src.uses@,
            strings_view(src.registration_macros@),
            src.macro_defs@,
            ffi_note,
        )
}

/// A surface list with the foreign surface's values.
pub open spec fn some_surface(src: OrientationSources) -> Seq<ForeignRootSurface> {
    choose|s: Seq<ForeignRootSurface>|
        surface_view(s) == foreign_surface_view(src.crate_names@, src.mods@, defined_view(src.uses@))
}

/// The lines of the orientation document: the header (trailing newlines
/// dropped) and a blank line, the shaping notes, the crate map, the core
/// vocabulary, the seam spine, the data-flow prompt and a blank line, the
/// foreign API surface of the readable use records, the guardrails, the
/// authoring guide and a blank line, and the histogram appendix.
pub open spec fn orientation_view(
    header: Seq<char>,
    s4: Seq<char>,
    s7: Seq<char>,
    src: OrientationSources,
    ffi_note: Seq<char>,
) -> Seq<Seq<char>> {
    let core = core_crate(dep_lists_view(src.dep_lists@));
    let voc = vocabulary_view(core, src.types@, src.traits@, src.impls@, src.uses@);
    let seams = some_detected(src, ffi_note);
    seq![trim_newlines(header), Seq::empty()] + shaped_view(src.shape) + crate_map_view(src.region) + vocab_section(
        core,
        voc.1,
        voc.0,
        src.types@,
        src.traits@,
    ) + seam_spine_view(seams) + seq![trim_newlines(s4), Seq::empty()] + foreign_view(some_surface(src))
        + guardrail_view(strings_view(src.registration_macros@), macro_index_view(src.macro_defs@), seams) + seq![
        trim_newlines(s7),
        Seq::empty(),
    ] + appendix_view(src.histogram@)
}

/// Assembles the orientation document's lines from the rendered header,
/// data-flow prompt and authoring guide and the workspace's facts.
pub fn orientation_lines(header: &str, s4: &str, s7: &str, src: OrientationSources, ffi_note: &str) -> (r: Vec<String>)
    ensures
        strings_view(r@) == orientation_view(header@, s4@, s7@, src, ffi_note@),
{
    let mut lines: Vec<String> = Vec::new();
    push_line(&mut lines, trim_newlines_exec(header));
    push_line(&mut lines, String::new());
    push_lines(&mut lines, &shaped_lines(&src.shape));
    push_lines(&mut lines, &crate_map_lines(&src.region));
    let vocab = core_vocabulary(&src.dep_lists, &src.types, &src.traits, &src.impls, &src.uses);
    push_lines(&mut lines, &vocabulary_lines(&vocab, &src.types, &src.traits));
    let seams = detected_seams(&src.inventory, &src.uses, &src.registration_macros, &src.macro_defs, ffi_note);
    proof {
        let chosen = some_detected(src, ffi_note@);
        assert(seams_view(chosen) == seams_view(seams@));
        lemma_seam_entries_by_view(seams@, chosen);
        assert(seams@.len() == seams_view(seams@).len() && chosen.len() == seams_view(chosen).len());
    }
    push_lines(&mut lines, &seam_spine_lines(&seams));
    push_line(&mut lines, trim_newlines_exec(s4));
    push_line(&mut lines, String::new());
    let ghost s0 = src;
    let OrientationSources {
        shape: _,
        region: _,
        dep_lists: _,
        types: _,
        traits: _,
        impls: _,
        uses,
        mods,
        macro_defs,
        registration_macros,
        inventory: _,
        crate_names,
        histogram,
    } = src;
    let readable = defined_uses(uses);
    let surface = foreign_api_surface(&crate_names, &mods, &readable);
    proof {
        let chosen = some_surface(s0);
        assert(surface_view(chosen) == surface_view(surface@));
        lemma_foreign_view_by_view(surface@, chosen);
    }
    push_lines(&mut lines, &foreign_surface_lines(&surface));
    let index = macro_defs_index(&macro_defs);
    push_lines(&mut lines, &guardrail_lines(&registration_macros, &index, &seams));
    push_line(&mut lines, trim_newlines_exec(s7));
    push_line(&mut lines, String::new());
    push_lines(&mut lines, &appendix_lines(&histogram));
    proof {
        let chosen = some_detected(s0, ffi_note@);
        assert(seam_spine_view(seams@) == seam_spine_view(chosen));
        assert(guardrail_view(strings_view(registration_macros@), index_view(index@), seams@) == guardrail_view(
            strings_view(s0.registration_macros@),
            macro_index_view(s0.macro_defs@),
            chosen,
        ));
    }
    assert(strings_view(lines@) =~= orientation_view(header@, s4@, s7@, s0, ffi_note@));
    lines
}

/// The orientation document: its lines joined with newlines.
pub fn orientation_text(header: &str, s4: &str, s7: &str, src: OrientationSources, ffi_note: &str) -> (r: String)
    ensures
        r@ == join_view(orientation_view(header@, s4@, s7@, src, ffi_note@), "\n"@),
{
    let lines = orientation_lines(header, s4, s7, src, ffi_note);
    join_strings(&lines, "\n")
}

/// `s` holds a run of `n` ASCII digits starting at `i`.
pub open spec fn digit_run_at(s: Seq<char>, i: int, n: int) -> bool {
    &&& 0 <= i
    &&& i + n <= s.len()
    &&& forall|k: int| 0 <= k < n ==> '0' <= #[trigger] s[i + k] <= '9'
}

/// A template in the plain fragment the renderer is used with: output tags
/// without filters (`|`), no block tags (`{%`), no ranges (`..`), and no run
/// of 19 or more ASCII digits (an integer literal that does not fit an
/// `i64`).
pub open spec fn plain_template(s: Seq<char>) -> bool {
    &&& !contains_seq(s, "|"@)
    &&& !contains_seq(s, "{%"@)
    &&& !contains_seq(s, ".."@)
    &&& !(exists|i: int| digit_run_at(s, i, 19))
}

fn has_long_digit_run(s: &str) -> (r: bool)
    ensures
        r == (exists|i: int| digit_run_at(s@, i, 19)),
{
    let cs = crate::text::chars_of(s);
    let mut run: usize = 0;
    let mut i: usize = 0;
    while i < cs.len()
        invariant
            i <= cs@.len(),
            cs@ == s@,
            run <= i,
            run < 19,
            forall|k: int| i - run <= k < i ==> '0' <= #[trigger] cs@[k] <= '9',
            i > run ==> !('0' <= cs@[i - run - 1] <= '9'),
            forall|j: int| 0 <= j && j + 19 <= i ==> !digit_run_at(s@, j, 19),
        decreases cs@.len() - i,
    {
        if '0' <= cs[i] && cs[i] <= '9' {
            run = run + 1;
            if run == 19 {
                assert(digit_run_at(s@, i + 1 - 19, 19)) by {
                    assert forall|k: int| 0 <= k < 19 implies '0' <= #[trigger] s@[i + 1 - 19 + k] <= '9' by {
                        assert(cs@[i + 1 - 19 + k] == s@[i + 1 - 19 + k]);
                    }
                }
                return true;
            }
        } else {
            run = 0;
        }
        proof {
            assert forall|j: int| 0 <= j && j + 19 <= i + 1 implies !digit_run_at(s@, j, 19) by {
                if j + 19 == i + 1 && digit_run_at(s@, j, 19) {
                    if run == 0 {
                        assert('0' <= s@[j + 18] <= '9');
                    } else {
                        let b = i + 1 - run - 1;
                        assert(j <= b);
                        assert('0' <= s@[j + (b - j)] <= '9');
                    }
                }
            }
        }
        i = i + 1;
    }
    false
}

/// Whether `s` is in the plain template fragment.
pub fn is_plain_template(s: &str) -> (r: bool)
    ensures
        r == plain_template(s@),
{
    !crate::text::str_contains(s, "|") && !crate::text::str_contains(s, "{%") && !crate::text::str_contains(s, "..")
        && !has_long_digit_run(s)
}

/// What liquid renders the template `source` with the string globals
/// `globals` to (`None` when parsing or rendering fails).
pub uninterp spec fn liquid_text(source: Seq<char>, globals: Seq<(Seq<char>, Seq<char>)>) -> Option<Seq<char>>;

/// `liquid::ParserBuilder::with_stdlib().build()`, `Parser::parse` and
/// `Template::render`: renders the liquid template `source` with the string
/// globals `vars` (a later pair overrides an earlier one of the same name),
/// `None` when the parser, the parse or the render fails. The template is
/// held to the plain fragment: the parser panics on an integer literal that
/// does not fit an `i64`, and a huge range need not finish. Without `|` no
/// filter runs, the `date` filter's reading of the clock among them, and
/// without `{%` no tag runs, so the outcome is a function of the template and
/// the globals alone; what that text is, is not stated.
#[verifier::external_body]
fn render_liquid(source: &str, vars: &Vec<(String, String)>) -> (r: Option<String>)
    requires
        plain_template(source@),
    ensures
        opt_view(r) == liquid_text(source@, globals_view(vars@)),
{
    let parser = liquid::ParserBuilder::with_stdlib().build().ok()?;
    let template = parser.parse(source).ok()?;
    let mut globals = liquid::Object::new();
    for (k, v) in vars.iter() {
        globals.insert(liquid::model::KString::from_string(k.clone()), liquid::model::Value::scalar(v.clone()));
    }
    template.render(&globals).ok()
}

/// The value of a list of globals.
pub open spec fn globals_view(v: Seq<(String, String)>) -> Seq<(Seq<char>, Seq<char>)> {
    v.map_values(|p: (String, String)| (p.0@, p.1@))
}

/// The globals the header and the authoring guide are rendered with: the
/// header gets `provenance`, the authoring guide the classification tag
/// (the data-flow prompt gets none).
pub fn orientation_globals(provenance: &str, use_label: &Option<String>) -> (r: (
    Vec<(String, String)>,
    Vec<(String, String)>,
))
    ensures
        globals_view(r.0@) == seq![("provenance"@, provenance@)],
        globals_view(r.1@) == seq![("classification_tag"@, classification_tag_view(*use_label))],
{
    let mut hv: Vec<(String, String)> = Vec::new();
    hv.push(("provenance".to_string(), provenance.to_string()));
    let mut sv: Vec<(String, String)> = Vec::new();
    sv.push(("classification_tag".to_string(), classification_tag(use_label)));
    assert(globals_view(hv@) =~= seq![("provenance"@, provenance@)]);
    assert(globals_view(sv@) =~= seq![("classification_tag"@, classification_tag_view(*use_label))]);
    (hv, sv)
}

/// The liquid templates of the orientation document's three prose parts.
#[derive(Debug, Clone)]
pub struct OrientationTemplates {
    pub header: String,
    pub s4_dataflow: String,
    pub s7_authoring: String,
}

/// The document `render_orientation` gives: `None` unless the three
/// templates are in the plain fragment and each renders (the header with
/// the provenance, the data-flow prompt with no globals, the authoring
/// guide with the classification tag); else the assembled document.
pub open spec fn orientation_doc_view(
    t: OrientationTemplates,
    provenance: Seq<char>,
    src: OrientationSources,
    ffi_note: Seq<char>,
) -> Option<Seq<char>> {
    if !(plain_template(t.header@) && plain_template(t.s4_dataflow@) && plain_template(t.s7_authoring@)) {
        None
    } else {
        match liquid_text(t.header@, seq![("provenance"@, provenance)]) {
            None => None,
            Some(h) => match liquid_text(t.s4_dataflow@, Seq::empty()) {
                None => None,
                Some(s4) => match liquid_text(
                    t.s7_authoring@,
                    seq![("classification_tag"@, classification_tag_view(src.shape.use_label))],
                ) {
                    None => None,
                    Some(s7) => Some(join_view(orientation_view(h, s4, s7, src, ffi_note), "\n"@)),
                },
            },
        }
    }
}

/// Renders the three prose parts and assembles the document: the header
/// with `provenance`, the data-flow prompt with no globals and the
/// authoring guide with the classification tag, each through liquid; a
/// template outside the plain fragment, or a render that fails, gives
/// `None`.
pub fn render_orientation(
    templates: &OrientationTemplates,
    provenance: &str,
    src: OrientationSources,
    ffi_note: &str,
) -> (r: Option<String>)
    ensures
        opt_view(r) == orientation_doc_view(*templates, provenance@, src, ffi_note@),
{
    if !is_plain_template(templates.header.as_str()) || !is_plain_template(templates.s4_dataflow.as_str())
        || !is_plain_template(templates.s7_authoring.as_str()) {
        return None;
    }
    let (hv, sv) = orientation_globals(provenance, &src.shape.use_label);
    let header = render_liquid(templates.header.as_str(), &hv)?;
    let none: Vec<(String, String)> = Vec::new();
    assert(globals_view(none@) =~= Seq::<(Seq<char>, Seq<char>)>::empty());
    let s4 = render_liquid(templates.s4_dataflow.as_str(), &none)?;
    let s7 = render_liquid(templates.s7_authoring.as_str(), &sv)?;
    let ghost s0 = src;
    let d = orientation_text(header.as_str(), s4.as_str(), s7.as_str(), src, ffi_note);
    assert(d@ == join_view(orientation_view(header@, s4@, s7@, s0, ffi_note@), "\n"@));
    Some(d)
}

} // verus!
