//! The picks data model: which selector classified a pattern, the semantic
//! pick groups, their form sub-classification, the six significance sets and
//! the `Pattern` key with its `<group_wire>:<name>` wire form.

use vstd::prelude::*;
use crate::text::str_eq;

verus! {

/// Which selector classified a pattern: `Picked` by the picker from the
/// workspace's significance signals, or `Carried` as one-hop context of a
/// picked entry.
#[derive(Debug, Clone, Copy, PartialEq, Eq, Hash, Structural)]
pub enum PickSelector {
    Picked,
    Carried,
}

impl PickSelector {
    /// snake_case wire form.
    pub open spec fn wire_view(self) -> Seq<char> {
        match self {
            PickSelector::Picked => "picked"@,
            PickSelector::Carried => "carried"@,
        }
    }

    /// `true` exactly for `Carried`.
    pub fn carried(&self) -> (r: bool)
        ensures
            r == (*self == PickSelector::Carried),
    {
        matches!(self, PickSelector::Carried)
    }

    /// `true` exactly for `Picked`, the inverse of `carried`.
    pub fn picked(&self) -> (r: bool)
        ensures
            r == (*self == PickSelector::Picked),
    {
        matches!(self, PickSelector::Picked)
    }

    /// snake_case wire form (`picked` / `carried`).
    pub fn wire(&self) -> (r: &'static str)
        ensures
            r@ == self.wire_view(),
    {
        match self {
            PickSelector::Picked => "picked",
            PickSelector::Carried => "carried",
        }
    }

    /// The selector whose wire form is `s`, if any.
    pub open spec fn from_wire_view(s: Seq<char>) -> Option<PickSelector> {
        if s == "picked"@ {
            Some(PickSelector::Picked)
        } else if s == "carried"@ {
            Some(PickSelector::Carried)
        } else {
            None
        }
    }

    /// Parses a wire-form selector; `None` on an unknown token.
    pub fn from_wire(s: &str) -> (r: Option<PickSelector>)
        ensures
            r == PickSelector::from_wire_view(s@),
    {
        if str_eq(s, "picked") {
            Some(PickSelector::Picked)
        } else if str_eq(s, "carried") {
            Some(PickSelector::Carried)
        } else {
            None
        }
    }
}

/// The form sub-classification orthogonal to `PickGroup`, used to route
/// per-pick prose budgets.
#[derive(Debug, Clone, Copy, PartialEq, Eq, Hash, Structural)]
pub enum SubForm {
    Foundational,
    Incidental,
    Configured,
    Marker,
    Lifecycle,
    FreeFn,
    Macro,
}

impl SubForm {
    /// snake_case wire form.
    pub open spec fn wire_view(self) -> Seq<char> {
        match self {
            SubForm::Foundational => "foundational"@,
            SubForm::Incidental => "incidental"@,
            SubForm::Configured => "configured"@,
            SubForm::Marker => "marker"@,
            SubForm::Lifecycle => "lifecycle"@,
            SubForm::FreeFn => "free_fn"@,
            SubForm::Macro => "macro"@,
        }
    }

    /// The sub-form whose wire form is `s`, if any.
    pub open spec fn from_wire_view(s: Seq<char>) -> Option<SubForm> {
        if s == "foundational"@ {
            Some(SubForm::Foundational)
        } else if s == "incidental"@ {
            Some(SubForm::Incidental)
        } else if s == "configured"@ {
            Some(SubForm::Configured)
        } else if s == "marker"@ {
            Some(SubForm::Marker)
        } else if s == "lifecycle"@ {
            Some(SubForm::Lifecycle)
        } else if s == "free_fn"@ {
            Some(SubForm::FreeFn)
        } else if s == "macro"@ {
            Some(SubForm::Macro)
        } else {
            None
        }
    }

    /// Whether the (group, sub-form) pair is meaningful.
    pub open spec fn valid_for_view(self, group: PickGroup) -> bool {
        match self {
            SubForm::Foundational | SubForm::Incidental => group == PickGroup::Structure,
            SubForm::Configured => group == PickGroup::Derives,
            SubForm::Marker => group == PickGroup::Derives || group == PickGroup::Traits,
            SubForm::Lifecycle => group == PickGroup::Traits,
            SubForm::FreeFn | SubForm::Macro => group == PickGroup::Utilities,
        }
    }

    /// snake_case wire form, matching the prose-budget row suffixes.
    pub fn wire(&self) -> (r: &'static str)
        ensures
            r@ == self.wire_view(),
    {
        match self {
            SubForm::Foundational => "foundational",
            SubForm::Incidental => "incidental",
            SubForm::Configured => "configured",
            SubForm::Marker => "marker",
            SubForm::Lifecycle => "lifecycle",
            SubForm::FreeFn => "free_fn",
            SubForm::Macro => "macro",
        }
    }

    /// Parses a wire-form sub-form; `None` on an unknown token.
    pub fn from_wire(s: &str) -> (r: Option<SubForm>)
        ensures
            r == SubForm::from_wire_view(s@),
    {
        if str_eq(s, "foundational") {
            Some(SubForm::Foundational)
        } else if str_eq(s, "incidental") {
            Some(SubForm::Incidental)
        } else if str_eq(s, "configured") {
            Some(SubForm::Configured)
        } else if str_eq(s, "marker") {
            Some(SubForm::Marker)
        } else if str_eq(s, "lifecycle") {
            Some(SubForm::Lifecycle)
        } else if str_eq(s, "free_fn") {
            Some(SubForm::FreeFn)
        } else if str_eq(s, "macro") {
            Some(SubForm::Macro)
        } else {
            None
        }
    }

    /// `true` when this sub-form is meaningful for `group`: `Foundational` /
    /// `Incidental` for `Structure`, `Configured` for `Derives`, `Marker` for
    /// `Derives` and `Traits`, `Lifecycle` for `Traits`, `FreeFn` / `Macro` for
    /// `Utilities`.
    pub fn valid_for(&self, group: PickGroup) -> (r: bool)
        ensures
            r == self.valid_for_view(group),
    {
        match self {
            SubForm::Foundational | SubForm::Incidental => matches!(group, PickGroup::Structure),
            SubForm::Configured => matches!(group, PickGroup::Derives),
            SubForm::Marker => matches!(group, PickGroup::Derives | PickGroup::Traits),
            SubForm::Lifecycle => matches!(group, PickGroup::Traits),
            SubForm::FreeFn | SubForm::Macro => matches!(group, PickGroup::Utilities),
        }
    }
}

/// The seven semantic groups partitioning the item kinds the picker
/// considers.
#[derive(Debug, Clone, Copy, PartialEq, Eq, Hash, Structural)]
pub enum PickGroup {
    Traits,
    TraitFunctions,
    Structure,
    ImplementationFunctions,
    Derives,
    Utilities,
    Globals,
}

impl PickGroup {
    /// Whether items of this group carry one-hop transitive context.
    pub open spec fn carryable_view(self) -> bool {
        !(self == PickGroup::Utilities || self == PickGroup::Globals)
    }

    /// snake_case wire form.
    pub open spec fn wire_view(self) -> Seq<char> {
        match self {
            PickGroup::Traits => "traits"@,
            PickGroup::TraitFunctions => "trait_functions"@,
            PickGroup::Structure => "structure"@,
            PickGroup::ImplementationFunctions => "implementation_functions"@,
            PickGroup::Derives => "derives"@,
            PickGroup::Utilities => "utilities"@,
            PickGroup::Globals => "globals"@,
        }
    }

    /// The group whose wire form is `s`, if any.
    pub open spec fn from_wire_view(s: Seq<char>) -> Option<PickGroup> {
        if s == "traits"@ {
            Some(PickGroup::Traits)
        } else if s == "trait_functions"@ {
            Some(PickGroup::TraitFunctions)
        } else if s == "structure"@ {
            Some(PickGroup::Structure)
        } else if s == "implementation_functions"@ {
            Some(PickGroup::ImplementationFunctions)
        } else if s == "derives"@ {
            Some(PickGroup::Derives)
        } else if s == "utilities"@ {
            Some(PickGroup::Utilities)
        } else if s == "globals"@ {
            Some(PickGroup::Globals)
        } else {
            None
        }
    }

    /// Whether the group's names are compound `<outer>::<inner>` pairs.
    pub open spec fn is_compound(self) -> bool {
        self == PickGroup::TraitFunctions || self == PickGroup::ImplementationFunctions
    }

    /// `true` for the carry-having groups (`Traits`, `TraitFunctions`,
    /// `Structure`, `ImplementationFunctions`, `Derives`), `false` for
    /// `Utilities` and `Globals`.
    pub fn carryable(&self) -> (r: bool)
        ensures
            r == self.carryable_view(),
    {
        match self {
            PickGroup::Traits
            | PickGroup::TraitFunctions
            | PickGroup::Structure
            | PickGroup::ImplementationFunctions
            | PickGroup::Derives => true,
            PickGroup::Utilities | PickGroup::Globals => false,
        }
    }

    /// snake_case wire form (e.g. `trait_functions`).
    pub fn wire(&self) -> (r: &'static str)
        ensures
            r@ == self.wire_view(),
    {
        match self {
            PickGroup::Traits => "traits",
            PickGroup::TraitFunctions => "trait_functions",
            PickGroup::Structure => "structure",
            PickGroup::ImplementationFunctions => "implementation_functions",
            PickGroup::Derives => "derives",
            PickGroup::Utilities => "utilities",
            PickGroup::Globals => "globals",
        }
    }

    /// Parses a wire-form group prefix; `None` on an unknown prefix.
    pub fn from_wire(s: &str) -> (r: Option<PickGroup>)
        ensures
            r == PickGroup::from_wire_view(s@),
    {
        if str_eq(s, "traits") {
            Some(PickGroup::Traits)
        } else if str_eq(s, "trait_functions") {
            Some(PickGroup::TraitFunctions)
        } else if str_eq(s, "structure") {
            Some(PickGroup::Structure)
        } else if str_eq(s, "implementation_functions") {
            Some(PickGroup::ImplementationFunctions)
        } else if str_eq(s, "derives") {
            Some(PickGroup::Derives)
        } else if str_eq(s, "utilities") {
            Some(PickGroup::Utilities)
        } else if str_eq(s, "globals") {
            Some(PickGroup::Globals)
        } else {
            None
        }
    }
}

/// The six significance sets the picker partitions patterns into.
#[derive(Debug, Clone, Copy, PartialEq, Eq, Hash, Structural)]
pub enum PickSet {
    Architecture,
    Public,
    InterCrate,
    Clique,
    IntraCrate,
    InnerCrate,
}

/// The two scope categories the six sets partition into.
#[derive(Debug, Clone, Copy, PartialEq, Eq, Hash, Structural)]
pub enum PickSetCategory {
    WorkspaceWide,
    PerCrate,
}

impl PickSet {
    /// The scope category of this set.
    pub open spec fn category_view(self) -> PickSetCategory {
        if self == PickSet::IntraCrate || self == PickSet::InnerCrate {
            PickSetCategory::PerCrate
        } else {
            PickSetCategory::WorkspaceWide
        }
    }

    /// snake_case wire form.
    pub open spec fn wire_view(self) -> Seq<char> {
        match self {
            PickSet::Architecture => "architecture"@,
            PickSet::Public => "public"@,
            PickSet::InterCrate => "inter_crate"@,
            PickSet::Clique => "clique"@,
            PickSet::IntraCrate => "intra_crate"@,
            PickSet::InnerCrate => "inner_crate"@,
        }
    }

    /// `Architecture`, `Public`, `InterCrate`, `Clique` are workspace-wide;
    /// `IntraCrate`, `InnerCrate` are per-crate.
    pub fn category(&self) -> (r: PickSetCategory)
        ensures
            r == self.category_view(),
    {
        match self {
            PickSet::Architecture
            | PickSet::Public
            | PickSet::InterCrate
            | PickSet::Clique => PickSetCategory::WorkspaceWide,
            PickSet::IntraCrate | PickSet::InnerCrate => PickSetCategory::PerCrate,
        }
    }

    /// snake_case wire form (e.g. `inter_crate`).
    pub fn wire(&self) -> (r: &'static str)
        ensures
            r@ == self.wire_view(),
    {
        match self {
            PickSet::Architecture => "architecture",
            PickSet::Public => "public",
            PickSet::InterCrate => "inter_crate",
            PickSet::Clique => "clique",
            PickSet::IntraCrate => "intra_crate",
            PickSet::InnerCrate => "inner_crate",
        }
    }

    /// The set whose wire form is `s`, if any.
    pub open spec fn from_wire_view(s: Seq<char>) -> Option<PickSet> {
        if s == "architecture"@ {
            Some(PickSet::Architecture)
        } else if s == "public"@ {
            Some(PickSet::Public)
        } else if s == "inter_crate"@ {
            Some(PickSet::InterCrate)
        } else if s == "clique"@ {
            Some(PickSet::Clique)
        } else if s == "intra_crate"@ {
            Some(PickSet::IntraCrate)
        } else if s == "inner_crate"@ {
            Some(PickSet::InnerCrate)
        } else {
            None
        }
    }

    /// Parses a wire-form set; `None` on an unknown token.
    pub fn from_wire(s: &str) -> (r: Option<PickSet>)
        ensures
            r == PickSet::from_wire_view(s@),
    {
        if str_eq(s, "architecture") {
            Some(PickSet::Architecture)
        } else if str_eq(s, "public") {
            Some(PickSet::Public)
        } else if str_eq(s, "inter_crate") {
            Some(PickSet::InterCrate)
        } else if str_eq(s, "clique") {
            Some(PickSet::Clique)
        } else if str_eq(s, "intra_crate") {
            Some(PickSet::IntraCrate)
        } else if str_eq(s, "inner_crate") {
            Some(PickSet::InnerCrate)
        } else {
            None
        }
    }
}

impl PickSetCategory {
    /// snake_case wire form.
    pub open spec fn wire_view(self) -> Seq<char> {
        match self {
            PickSetCategory::WorkspaceWide => "workspace_wide"@,
            PickSetCategory::PerCrate => "per_crate"@,
        }
    }

    /// snake_case wire form (`workspace_wide` / `per_crate`).
    pub fn wire(&self) -> (r: &'static str)
        ensures
            r@ == self.wire_view(),
    {
        match self {
            PickSetCategory::WorkspaceWide => "workspace_wide",
            PickSetCategory::PerCrate => "per_crate",
        }
    }

    /// The category whose wire form is `s`, if any.
    pub open spec fn from_wire_view(s: Seq<char>) -> Option<PickSetCategory> {
        if s == "workspace_wide"@ {
            Some(PickSetCategory::WorkspaceWide)
        } else if s == "per_crate"@ {
            Some(PickSetCategory::PerCrate)
        } else {
            None
        }
    }

    /// Parses a wire-form category; `None` on an unknown token.
    pub fn from_wire(s: &str) -> (r: Option<PickSetCategory>)
        ensures
            r == PickSetCategory::from_wire_view(s@),
    {
        if str_eq(s, "workspace_wide") {
            Some(PickSetCategory::WorkspaceWide)
        } else if str_eq(s, "per_crate") {
            Some(PickSetCategory::PerCrate)
        } else {
            None
        }
    }
}

/// The five carry-having pick groups.
pub const CARRY_GROUPS: [PickGroup; 5] = [
    PickGroup::Traits,
    PickGroup::TraitFunctions,
    PickGroup::Structure,
    PickGroup::ImplementationFunctions,
    PickGroup::Derives,
];

/// The two no-carry pick groups.
pub const NO_CARRY_GROUPS: [PickGroup; 2] = [PickGroup::Utilities, PickGroup::Globals];

/// The four workspace-wide significance sets.
pub const WORKSPACE_WIDE_SETS: [PickSet; 4] = [
    PickSet::Architecture,
    PickSet::Public,
    PickSet::InterCrate,
    PickSet::Clique,
];

/// The two per-crate significance sets.
pub const PER_CRATE_SETS: [PickSet; 2] = [PickSet::IntraCrate, PickSet::InnerCrate];

/// Wire round trip of selectors: parsing a selector's wire form gives it
/// back, and a string parses to a selector only when it is its wire form.
pub proof fn lemma_selector_wire_round_trip(x: PickSelector, s: Seq<char>)
    ensures
        PickSelector::from_wire_view(x.wire_view()) == Some(x),
        PickSelector::from_wire_view(s) == Some(x) ==> s == x.wire_view(),
{
    reveal_strlit("picked");
    assert("picked"@ =~= seq!['p', 'i', 'c', 'k', 'e', 'd']);
    reveal_strlit("carried");
    assert("carried"@ =~= seq!['c', 'a', 'r', 'r', 'i', 'e', 'd']);
}

/// Wire round trip of significance sets: parsing a set's wire form gives it
/// back, and a string parses to a set only when it is its wire form.
pub proof fn lemma_set_wire_round_trip(x: PickSet, s: Seq<char>)
    ensures
        PickSet::from_wire_view(x.wire_view()) == Some(x),
        PickSet::from_wire_view(s) == Some(x) ==> s == x.wire_view(),
{
    reveal_strlit("architecture");
    assert("architecture"@ =~= seq!['a', 'r', 'c', 'h', 'i', 't', 'e', 'c', 't', 'u', 'r', 'e']);
    reveal_strlit("public");
    assert("public"@ =~= seq!['p', 'u', 'b', 'l', 'i', 'c']);
    reveal_strlit("inter_crate");
    assert("inter_crate"@ =~= seq!['i', 'n', 't', 'e', 'r', '_', 'c', 'r', 'a', 't', 'e']);
    reveal_strlit("clique");
    assert("clique"@ =~= seq!['c', 'l', 'i', 'q', 'u', 'e']);
    reveal_strlit("intra_crate");
    assert("intra_crate"@ =~= seq!['i', 'n', 't', 'r', 'a', '_', 'c', 'r', 'a', 't', 'e']);
    reveal_strlit("inner_crate");
    assert("inner_crate"@ =~= seq!['i', 'n', 'n', 'e', 'r', '_', 'c', 'r', 'a', 't', 'e']);
}

/// Wire round trip of set categories: parsing a category's wire form gives
/// it back, and a string parses to a category only when it is its wire form.
pub proof fn lemma_category_wire_round_trip(x: PickSetCategory, s: Seq<char>)
    ensures
        PickSetCategory::from_wire_view(x.wire_view()) == Some(x),
        PickSetCategory::from_wire_view(s) == Some(x) ==> s == x.wire_view(),
{
    reveal_strlit("workspace_wide");
    assert("workspace_wide"@ =~= seq!['w', 'o', 'r', 'k', 's', 'p', 'a', 'c', 'e', '_', 'w', 'i', 'd', 'e']);
    reveal_strlit("per_crate");
    assert("per_crate"@ =~= seq!['p', 'e', 'r', '_', 'c', 'r', 'a', 't', 'e']);
}

/// Wire round trip of sub-forms: parsing a sub-form's wire form gives it back,
/// and a string parses to a sub-form only when it is that sub-form's wire form.
pub proof fn lemma_sub_form_wire_round_trip(sf: SubForm, s: Seq<char>)
    ensures
        SubForm::from_wire_view(sf.wire_view()) == Some(sf),
        SubForm::from_wire_view(s) == Some(sf) ==> s == sf.wire_view(),
{
    reveal_strlit("foundational");
    assert("foundational"@ =~= seq!['f', 'o', 'u', 'n', 'd', 'a', 't', 'i', 'o', 'n', 'a', 'l']);
    reveal_strlit("incidental");
    assert("incidental"@ =~= seq!['i', 'n', 'c', 'i', 'd', 'e', 'n', 't', 'a', 'l']);
    reveal_strlit("configured");
    assert("configured"@ =~= seq!['c', 'o', 'n', 'f', 'i', 'g', 'u', 'r', 'e', 'd']);
    reveal_strlit("marker");
    assert("marker"@ =~= seq!['m', 'a', 'r', 'k', 'e', 'r']);
    reveal_strlit("lifecycle");
    assert("lifecycle"@ =~= seq!['l', 'i', 'f', 'e', 'c', 'y', 'c', 'l', 'e']);
    reveal_strlit("free_fn");
    assert("free_fn"@ =~= seq!['f', 'r', 'e', 'e', '_', 'f', 'n']);
    reveal_strlit("macro");
    assert("macro"@ =~= seq!['m', 'a', 'c', 'r', 'o']);
}

/// Wire round trip of pick groups: parsing a group's wire form gives it back,
/// and a string parses to a group only when it is that group's wire form.
pub proof fn lemma_group_wire_round_trip(g: PickGroup, s: Seq<char>)
    ensures
        PickGroup::from_wire_view(g.wire_view()) == Some(g),
        PickGroup::from_wire_view(s) == Some(g) ==> s == g.wire_view(),
{
    reveal_strlit("traits");
    assert("traits"@ =~= seq!['t', 'r', 'a', 'i', 't', 's']);
    reveal_strlit("trait_functions");
    assert("trait_functions"@ =~= seq!['t', 'r', 'a', 'i', 't', '_', 'f', 'u', 'n', 'c', 't', 'i', 'o', 'n', 's']);
    reveal_strlit("structure");
    assert("structure"@ =~= seq!['s', 't', 'r', 'u', 'c', 't', 'u', 'r', 'e']);
    reveal_strlit("implementation_functions");
    assert("implementation_functions"@ =~= seq!['i', 'm', 'p', 'l', 'e', 'm', 'e', 'n', 't', 'a', 't', 'i', 'o', 'n', '_', 'f', 'u', 'n', 'c', 't', 'i', 'o', 'n', 's']);
    reveal_strlit("derives");
    assert("derives"@ =~= seq!['d', 'e', 'r', 'i', 'v', 'e', 's']);
    reveal_strlit("utilities");
    assert("utilities"@ =~= seq!['u', 't', 'i', 'l', 'i', 't', 'i', 'e', 's']);
    reveal_strlit("globals");
    assert("globals"@ =~= seq!['g', 'l', 'o', 'b', 'a', 'l', 's']);
}

/// A group's wire form holds no `:`, so it never swallows the group separator
/// of a pattern key.
pub proof fn lemma_group_wire_has_no_colon(g: PickGroup)
    ensures
        forall|k: int| 0 <= k < g.wire_view().len() ==> g.wire_view()[k] != ':',
{
    reveal_strlit("traits");
    assert("traits"@ =~= seq!['t', 'r', 'a', 'i', 't', 's']);
    reveal_strlit("trait_functions");
    assert("trait_functions"@ =~= seq!['t', 'r', 'a', 'i', 't', '_', 'f', 'u', 'n', 'c', 't', 'i', 'o', 'n', 's']);
    reveal_strlit("structure");
    assert("structure"@ =~= seq!['s', 't', 'r', 'u', 'c', 't', 'u', 'r', 'e']);
    reveal_strlit("implementation_functions");
    assert("implementation_functions"@ =~= seq!['i', 'm', 'p', 'l', 'e', 'm', 'e', 'n', 't', 'a', 't', 'i', 'o', 'n', '_', 'f', 'u', 'n', 'c', 't', 'i', 'o', 'n', 's']);
    reveal_strlit("derives");
    assert("derives"@ =~= seq!['d', 'e', 'r', 'i', 'v', 'e', 's']);
    reveal_strlit("utilities");
    assert("utilities"@ =~= seq!['u', 't', 'i', 'l', 'i', 't', 'i', 'e', 's']);
    reveal_strlit("globals");
    assert("globals"@ =~= seq!['g', 'l', 'o', 'b', 'a', 'l', 's']);
}

/// Distinct selectors, sets and set categories have distinct wire forms.
pub proof fn lemma_wire_forms_are_distinct(
    a: PickSelector,
    b: PickSelector,
    x: PickSet,
    y: PickSet,
    c: PickSetCategory,
    d: PickSetCategory,
)
    ensures
        a.wire_view() == b.wire_view() ==> a == b,
        x.wire_view() == y.wire_view() ==> x == y,
        c.wire_view() == d.wire_view() ==> c == d,
{
    reveal_strlit("picked");
    assert("picked"@ =~= seq!['p', 'i', 'c', 'k', 'e', 'd']);
    reveal_strlit("carried");
    assert("carried"@ =~= seq!['c', 'a', 'r', 'r', 'i', 'e', 'd']);
    reveal_strlit("architecture");
    assert("architecture"@ =~= seq!['a', 'r', 'c', 'h', 'i', 't', 'e', 'c', 't', 'u', 'r', 'e']);
    reveal_strlit("public");
    assert("public"@ =~= seq!['p', 'u', 'b', 'l', 'i', 'c']);
    reveal_strlit("inter_crate");
    assert("inter_crate"@ =~= seq!['i', 'n', 't', 'e', 'r', '_', 'c', 'r', 'a', 't', 'e']);
    reveal_strlit("clique");
    assert("clique"@ =~= seq!['c', 'l', 'i', 'q', 'u', 'e']);
    reveal_strlit("intra_crate");
    assert("intra_crate"@ =~= seq!['i', 'n', 't', 'r', 'a', '_', 'c', 'r', 'a', 't', 'e']);
    reveal_strlit("inner_crate");
    assert("inner_crate"@ =~= seq!['i', 'n', 'n', 'e', 'r', '_', 'c', 'r', 'a', 't', 'e']);
    reveal_strlit("workspace_wide");
    assert("workspace_wide"@ =~= seq!['w', 'o', 'r', 'k', 's', 'p', 'a', 'c', 'e', '_', 'w', 'i', 'd', 'e']);
    reveal_strlit("per_crate");
    assert("per_crate"@ =~= seq!['p', 'e', 'r', '_', 'c', 'r', 'a', 't', 'e']);
}

/// The carry partition: a group is carryable exactly when it is one of
/// `CARRY_GROUPS`, and not carryable exactly when it is one of
/// `NO_CARRY_GROUPS`; the two lists cover every group.
pub proof fn lemma_carry_partition(g: PickGroup)
    ensures
        g.carryable_view() <==> exists|i: int| 0 <= i < 5 && CARRY_GROUPS@[i] == g,
        !g.carryable_view() <==> exists|i: int| 0 <= i < 2 && NO_CARRY_GROUPS@[i] == g,
{
    match g {
        PickGroup::Traits => assert(CARRY_GROUPS@[0] == g),
        PickGroup::TraitFunctions => assert(CARRY_GROUPS@[1] == g),
        PickGroup::Structure => assert(CARRY_GROUPS@[2] == g),
        PickGroup::ImplementationFunctions => assert(CARRY_GROUPS@[3] == g),
        PickGroup::Derives => assert(CARRY_GROUPS@[4] == g),
        PickGroup::Utilities => assert(NO_CARRY_GROUPS@[0] == g),
        PickGroup::Globals => assert(NO_CARRY_GROUPS@[1] == g),
    }
}

/// The set-category partition: a set is workspace-wide exactly when it is one
/// of `WORKSPACE_WIDE_SETS`, and per-crate exactly when it is one of
/// `PER_CRATE_SETS`.
pub proof fn lemma_set_category_partition(s: PickSet)
    ensures
        s.category_view() == PickSetCategory::WorkspaceWide <==> exists|i: int|
            0 <= i < 4 && WORKSPACE_WIDE_SETS@[i] == s,
        s.category_view() == PickSetCategory::PerCrate <==> exists|i: int|
            0 <= i < 2 && PER_CRATE_SETS@[i] == s,
{
    match s {
        PickSet::Architecture => assert(WORKSPACE_WIDE_SETS@[0] == s),
        PickSet::Public => assert(WORKSPACE_WIDE_SETS@[1] == s),
        PickSet::InterCrate => assert(WORKSPACE_WIDE_SETS@[2] == s),
        PickSet::Clique => assert(WORKSPACE_WIDE_SETS@[3] == s),
        PickSet::IntraCrate => assert(PER_CRATE_SETS@[0] == s),
        PickSet::InnerCrate => assert(PER_CRATE_SETS@[1] == s),
    }
}

/// The groups whose key already captures the relevant axis carry no
/// sub-form: no sub-form is valid for `ImplementationFunctions`,
/// `TraitFunctions` or `Globals`, and every sub-form is valid for some group.
pub proof fn lemma_sub_form_validity(sf: SubForm)
    ensures
        !sf.valid_for_view(PickGroup::ImplementationFunctions),
        !sf.valid_for_view(PickGroup::TraitFunctions),
        !sf.valid_for_view(PickGroup::Globals),
        exists|g: PickGroup| sf.valid_for_view(g),
{
    match sf {
        SubForm::Foundational | SubForm::Incidental => assert(sf.valid_for_view(PickGroup::Structure)),
        SubForm::Configured | SubForm::Marker => assert(sf.valid_for_view(PickGroup::Derives)),
        SubForm::Lifecycle => assert(sf.valid_for_view(PickGroup::Traits)),
        SubForm::FreeFn | SubForm::Macro => assert(sf.valid_for_view(PickGroup::Utilities)),
    }
}

} // verus!
