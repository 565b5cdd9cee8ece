//! Small pieces of the orientation text: the per-use-tier guidance line, the
//! evidence-file test, the visibility backfill verdict, the prose-budget
//! suffix of a pick bullet, character truncation, the template contexts and
//! the embedded template registries.

use vstd::prelude::*;
use crate::numfmt::{decimal_view, push_decimal};
use crate::pattern::{Pattern, PatternView};
use crate::picks::SubForm;
use crate::resolution::{strings_contain, strings_view};
use crate::text::{any_contained, any_prefix, chars_of, contains_any, push_str, starts_with_any, str_eq, string_of_range};

verus! {

/// Guidance for a `dev_use` workspace.
pub const DEV_USE_MODIFIER: &'static str = "Workspace is a **dev_use library** consumed by other developers. The ARCHITECTURE \
     set (5.1) is the workspace's doubly-strong external API surface; the PUBLIC set \
     (5.2) is the broader public-by-example face; the INTER-CRATE set (5.3) is the \
     library's internal composition flow; the CLIQUE set (5.4) is shared infrastructure \
     broadly supported across the library's crates via STV vote. INNER-CRATE (5.6) \
     per-crate shows where each library crate's own architecture lives.";

/// Guidance for an `end_with_dev_use` workspace.
pub const END_WITH_DEV_USE_MODIFIER: &'static str = "Workspace ships an **end-user product** (end_with_dev_use) with internal libraries \
     composing it. The INTER-CRATE set (5.3) captures cross-crate flow that makes the \
     product work; the PUBLIC set (5.2) is the (often narrower) external face the \
     product offers to embedders or extension authors; the CLIQUE set (5.4) is the \
     product's shared infrastructure by broad-consensus election. INTRA-CRATE (5.5) \
     within the product's primary crate shows what it consumes from the internal \
     libraries (minus clique); INNER-CRATE (5.6) shows each library crate's own \
     architecture.";

/// Guidance for a `dev_with_end_use` workspace.
pub const DEV_WITH_END_USE_MODIFIER: &'static str = "Workspace's primary deliverable is a **library with an auxiliary CLI** \
     (dev_with_end_use, gitoxide pattern). The PUBLIC set (5.2) is the library API; \
     the INTER-CRATE set (5.3) is the cross-crate flow within the lib; the CLIQUE set \
     (5.4) is shared infrastructure across the lib's crates by broad-consensus election. \
     The CLI binary is part of the public face but should be treated as a thin wrapper \
     around the lib unless its own complexity warrants attention. Note: this bucket \
     has no empirical anchor in the current 10-target reference set; guidance is \
     speculative until a gitoxide-class target probes through (see notes/know_rust/\
     next-phase-agent-augmentation.md for the related 5th-bucket arbitration hatch \
     debt).";

/// Guidance for an `end_use` workspace.
pub const END_USE_MODIFIER: &'static str = "Workspace is a pure **end-user product** (end_use). Architecture / public / \
     inter-crate / clique sets are the user-facing entry points and the cross-crate \
     flows that compose the product's behavior. No external library face to track. \
     Note: this bucket has no empirical anchor in the current 10-target reference set; \
     guidance is speculative.";

/// The guidance line for a workspace use label, `None` for any other label.
pub open spec fn tier_modifier_view(label: Seq<char>) -> Option<Seq<char>> {
    if label == "dev_use"@ {
        Some(DEV_USE_MODIFIER@)
    } else if label == "end_with_dev_use"@ {
        Some(END_WITH_DEV_USE_MODIFIER@)
    } else if label == "dev_with_end_use"@ {
        Some(DEV_WITH_END_USE_MODIFIER@)
    } else if label == "end_use"@ {
        Some(END_USE_MODIFIER@)
    } else {
        None
    }
}

/// The per-use-tier guidance for the orientation's sets section.
pub fn use_tier_modifier(label: &str) -> (r: Option<&'static str>)
    ensures
        r matches Some(t) ==> tier_modifier_view(label@) == Some(t@),
        r is None ==> tier_modifier_view(label@) is None,
{
    if str_eq(label, "dev_use") {
        Some(DEV_USE_MODIFIER)
    } else if str_eq(label, "end_with_dev_use") {
        Some(END_WITH_DEV_USE_MODIFIER)
    } else if str_eq(label, "dev_with_end_use") {
        Some(DEV_WITH_END_USE_MODIFIER)
    } else if str_eq(label, "end_use") {
        Some(END_USE_MODIFIER)
    } else {
        None
    }
}

/// Evidence directories at the start of a path.
pub const EVIDENCE_ROOTS: [&'static str; 3] = ["tests/", "benches/", "examples/"];

/// Evidence directories anywhere below the root.
pub const EVIDENCE_SEGMENTS: [&'static str; 3] = ["/tests/", "/benches/", "/examples/"];

/// A source file: neither under a top-level nor a nested `tests/`,
/// `benches/` or `examples/` directory.
pub open spec fn src_file_view(f: Seq<char>) -> bool {
    !any_prefix(f, EVIDENCE_ROOTS@) && !any_contained(f, EVIDENCE_SEGMENTS@)
}

/// Whether `file_path` is a source file rather than test, bench or example
/// evidence.
pub fn is_src_file(file_path: &str) -> (r: bool)
    ensures
        r == src_file_view(file_path@),
{
    !starts_with_any(file_path, &EVIDENCE_ROOTS) && !contains_any(file_path, &EVIDENCE_SEGMENTS)
}

/// The names the public API surface of a package declares public, for
/// backfilling visibility the facts could not see: trait names and type
/// names, plus the package they describe.
#[derive(Debug, Clone)]
pub struct VisBackfill {
    pub traits: Vec<String>,
    pub types: Vec<String>,
    pub package: Option<String>,
}

impl VisBackfill {
    /// Whether the backfill vouches for `pattern`: trait and derive patterns
    /// by the trait names, structure patterns by the type names, nothing
    /// else.
    pub fn backfills(&self, pattern: &Pattern) -> (r: bool)
        ensures
            r == (match pattern@ {
                PatternView::Traits(n) => strings_view(self.traits@).contains(n),
                PatternView::Derives(n) => strings_view(self.traits@).contains(n),
                PatternView::Structure(n) => strings_view(self.types@).contains(n),
                _ => false,
            }),
    {
        match pattern {
            Pattern::Traits(n) => strings_contain(&self.traits, n.as_str()),
            Pattern::Derives(n) => strings_contain(&self.traits, n.as_str()),
            Pattern::Structure(n) => strings_contain(&self.types, n.as_str()),
            _ => false,
        }
    }
}

/// The first `n` characters of `s` (all of it when shorter).
pub fn truncate_chars(s: &str, n: usize) -> (r: String)
    ensures
        r@ == s@.take(if n < s@.len() {
            n as int
        } else {
            s@.len() as int
        }),
{
    let cs = chars_of(s);
    let k = if n < cs.len() {
        n
    } else {
        cs.len()
    };
    let r = string_of_range(&cs, 0, k);
    assert(cs@.subrange(0, k as int) =~= s@.take(k as int));
    r
}

/// The prose-budget suffix of a pick bullet: empty for a zero budget,
/// ` - budget N (sub_form)` with a classified sub-form, else ` - budget N`.
pub open spec fn budget_suffix_view(budget_hint: nat, sub_form: Option<SubForm>) -> Seq<char> {
    if budget_hint == 0 {
        Seq::empty()
    } else {
        match sub_form {
            Some(sf) => " - budget "@ + decimal_view(budget_hint) + " ("@ + sf.wire_view() + ")"@,
            None => " - budget "@ + decimal_view(budget_hint),
        }
    }
}

/// Renders the prose-budget suffix of a pick bullet.
pub fn budget_suffix(budget_hint: usize, sub_form: Option<SubForm>) -> (r: String)
    ensures
        r@ == budget_suffix_view(budget_hint as nat, sub_form),
{
    let mut r = String::new();
    if budget_hint == 0 {
        return r;
    }
    push_str(&mut r, " - budget ");
    push_decimal(&mut r, budget_hint);
    match sub_form {
        Some(sf) => {
            push_str(&mut r, " (");
            push_str(&mut r, sf.wire());
            push_str(&mut r, ")");
        },
        None => {},
    }
    r
}

/// Context of the orientation header template.
#[derive(Debug, Clone)]
pub struct OrientationHeaderContext {
    pub provenance: String,
}

/// Context of the orientation's classification section template.
#[derive(Debug, Clone)]
pub struct OrientationS7Context {
    pub classification_tag: String,
}

/// Context of the container-routing intro template.
#[derive(Debug, Clone)]
pub struct ContainerIntroContext {
    pub provenance: String,
}

/// Context of a template that takes no values.
#[derive(Debug, Clone)]
pub struct EmptyContext {}

/// The embedded default of a prompt template: none are embedded, so every
/// prompt must come from the templates directory.
pub fn default_prompt(name: &str) -> (r: Option<&'static str>)
    ensures
        r is None,
{
    None
}

/// The embedded default of a non-prompt template: none are embedded.
pub fn default_template(name: &str) -> (r: Option<&'static str>)
    ensures
        r is None,
{
    None
}

} // verus!
