//! Calibration knobs that drive use classification, the form sub-classifier,
//! family aggregation, cluster surfacing, filter sets, and the per-pick
//! prose-budget matrix.

use vstd::prelude::*;
use crate::picks::{PickGroup, PickSet, SubForm};
use crate::text::{chars_of, contains_seq, find_from_exec, lemma_find_from_sound, occurs_at};

verus! {

/// Threshold for the flip from `end_with_dev_use` to `dev_with_end_use`,
/// based on the lib's cross-crate pub usage count.
#[derive(Debug, Clone)]
pub struct ClassificationConfig {
    pub dev_with_end_threshold: usize,
}

/// Form sub-classifier thresholds: `foundational_min_total` splits structure
/// foundational vs incidental; `lifecycle_impl_threshold` splits traits
/// lifecycle vs marker on workspace impl count.
#[derive(Debug, Clone)]
pub struct ClassifierConfig {
    pub foundational_min_total: usize,
    pub lifecycle_impl_threshold: usize,
}

/// Minimum distinct workspace-defined outers for a `Type::method` family.
#[derive(Debug, Clone)]
pub struct PickerFamilyConfig {
    pub method_ref_min_outers: usize,
}

/// Crate-cluster surfacing: the member count that triggers clustering and the
/// minimum size of a rendered cluster.
#[derive(Debug, Clone)]
pub struct PickerClusterConfig {
    pub threshold: usize,
    pub min_size: usize,
}

/// Filter sets applied at picker / synthesis time.
#[derive(Debug, Clone)]
pub struct FiltersConfig {
    pub method_ref_outer_skip: Vec<String>,
    pub method_ref_inner_skip: Vec<String>,
    pub excluded_dir_segments: Vec<String>,
    /// Substring blacklist applied against each pattern key.
    pub pattern_skip_substrings: Vec<String>,
}

/// The default pattern-key substring skip list: the canonical test-helper
/// shape `::test_`.
pub fn default_pattern_skip_substrings() -> (r: Vec<String>)
    ensures
        r@.len() == 1,
        r@[0]@ == "::test_"@,
{
    let mut v: Vec<String> = Vec::new();
    v.push("::test_".to_owned());
    v
}

/// `pattern` contains one of `subs` as a substring.
pub open spec fn matches_any_substring(pattern: Seq<char>, subs: Seq<String>) -> bool {
    exists|i: int| 0 <= i < subs.len() && contains_seq(pattern, #[trigger] subs[i]@)
}

/// `true` when the pattern key contains any of the configured skip
/// substrings; such patterns are dropped before metric computation.
pub fn should_skip_pattern(pattern: &str, filters: &FiltersConfig) -> (r: bool)
    ensures
        r == matches_any_substring(pattern@, filters.pattern_skip_substrings@),
{
    let cs = chars_of(pattern);
    let subs = &filters.pattern_skip_substrings;
    let mut i: usize = 0;
    while i < subs.len()
        invariant
            i <= subs@.len(),
            cs@ == pattern@,
            subs == &filters.pattern_skip_substrings,
            forall|k: int| 0 <= k < i ==> !contains_seq(pattern@, #[trigger] subs@[k]@),
        decreases subs@.len() - i,
    {
        let needle = chars_of(subs[i].as_str());
        let found = find_from_exec(&cs, &needle, 0);
        proof {
            lemma_find_from_sound(cs@, needle@, 0);
        }
        if found.is_some() {
            proof {
                let j = found.unwrap();
                assert(occurs_at(cs@, needle@, j as int));
                assert(contains_seq(pattern@, subs@[i as int]@));
            }
            return true;
        }
        i = i + 1;
    }
    false
}

/// Per-set prose budget hints (character counts): one column per set.
#[derive(Debug, Clone)]
pub struct ProseBudgetCell {
    pub architecture: usize,
    pub public: usize,
    pub inter_crate: usize,
    pub clique: usize,
    pub intra_crate: usize,
    pub inner_crate: usize,
}

impl ProseBudgetCell {
    /// The column of `set`.
    pub open spec fn column(self, set: PickSet) -> usize {
        match set {
            PickSet::Architecture => self.architecture,
            PickSet::Public => self.public,
            PickSet::InterCrate => self.inter_crate,
            PickSet::Clique => self.clique,
            PickSet::IntraCrate => self.intra_crate,
            PickSet::InnerCrate => self.inner_crate,
        }
    }

    /// The char budget for the given pick set.
    pub fn for_set(&self, set: PickSet) -> (r: usize)
        ensures
            r == self.column(set),
    {
        match set {
            PickSet::Architecture => self.architecture,
            PickSet::Public => self.public,
            PickSet::InterCrate => self.inter_crate,
            PickSet::Clique => self.clique,
            PickSet::IntraCrate => self.intra_crate,
            PickSet::InnerCrate => self.inner_crate,
        }
    }
}

/// The prose-budget matrix keyed by (group, sub-form, set); rows are selected
/// by (group, sub-form). The `configuring` row serves the `Derives` group
/// (attribute-driven integration: configured and marker derives alike).
#[derive(Debug, Clone)]
pub struct ProseBudgetMatrix {
    pub structure_foundational: ProseBudgetCell,
    pub structure_incidental: ProseBudgetCell,
    pub traits_lifecycle: ProseBudgetCell,
    pub traits_marker: ProseBudgetCell,
    pub configuring: ProseBudgetCell,
    pub implementation_functions: ProseBudgetCell,
    pub trait_functions: ProseBudgetCell,
    pub utilities_free_fn: ProseBudgetCell,
    pub utilities_macro: ProseBudgetCell,
    pub globals: ProseBudgetCell,
}

impl ProseBudgetMatrix {
    /// The row for `(group, sub_form)`: a group with a sub-form discriminator
    /// falls back to its thinner row when the sub-form is absent or does not
    /// apply (structure -> incidental, traits -> marker, utilities -> macro).
    pub open spec fn row(self, group: PickGroup, sub_form: Option<SubForm>) -> ProseBudgetCell {
        match group {
            PickGroup::Structure => if sub_form == Some(SubForm::Foundational) {
                self.structure_foundational
            } else {
                self.structure_incidental
            },
            PickGroup::Traits => if sub_form == Some(SubForm::Lifecycle) {
                self.traits_lifecycle
            } else {
                self.traits_marker
            },
            PickGroup::Derives => self.configuring,
            PickGroup::ImplementationFunctions => self.implementation_functions,
            PickGroup::TraitFunctions => self.trait_functions,
            PickGroup::Utilities => if sub_form == Some(SubForm::FreeFn) {
                self.utilities_free_fn
            } else {
                self.utilities_macro
            },
            PickGroup::Globals => self.globals,
        }
    }

    /// The per-pick prose budget for `(group, sub_form, set)`.
    pub fn budget_for(&self, group: PickGroup, sub_form: Option<SubForm>, set: PickSet) -> (r:
        usize)
        ensures
            r == self.row(group, sub_form).column(set),
    {
        let cell: &ProseBudgetCell = match (group, sub_form) {
            (PickGroup::Structure, Some(SubForm::Foundational)) => &self.structure_foundational,
            (PickGroup::Structure, Some(SubForm::Incidental)) => &self.structure_incidental,
            (PickGroup::Structure, _) => &self.structure_incidental,
            (PickGroup::Traits, Some(SubForm::Lifecycle)) => &self.traits_lifecycle,
            (PickGroup::Traits, Some(SubForm::Marker)) => &self.traits_marker,
            (PickGroup::Traits, _) => &self.traits_marker,
            (PickGroup::Derives, _) => &self.configuring,
            (PickGroup::ImplementationFunctions, _) => &self.implementation_functions,
            (PickGroup::TraitFunctions, _) => &self.trait_functions,
            (PickGroup::Utilities, Some(SubForm::FreeFn)) => &self.utilities_free_fn,
            (PickGroup::Utilities, Some(SubForm::Macro)) => &self.utilities_macro,
            (PickGroup::Utilities, _) => &self.utilities_macro,
            (PickGroup::Globals, _) => &self.globals,
        };
        cell.for_set(set)
    }
}

/// When the classifier returned no sub-form, the lookup resolves to the
/// thinner row of the group: structure to incidental, traits to marker,
/// utilities to macro.
pub proof fn lemma_budget_none_falls_back_to_thin_row(m: ProseBudgetMatrix, set: PickSet)
    ensures
        m.row(PickGroup::Structure, None).column(set) == m.row(
            PickGroup::Structure,
            Some(SubForm::Incidental),
        ).column(set),
        m.row(PickGroup::Traits, None).column(set) == m.row(
            PickGroup::Traits,
            Some(SubForm::Marker),
        ).column(set),
        m.row(PickGroup::Utilities, None).column(set) == m.row(
            PickGroup::Utilities,
            Some(SubForm::Macro),
        ).column(set),
{
}

/// Groups without a sub-form discriminator ignore the sub-form argument.
pub proof fn lemma_budget_ignores_sub_form_without_discriminator(
    m: ProseBudgetMatrix,
    a: Option<SubForm>,
    b: Option<SubForm>,
    set: PickSet,
)
    ensures
        m.row(PickGroup::Derives, a).column(set) == m.row(PickGroup::Derives, b).column(set),
        m.row(PickGroup::ImplementationFunctions, a).column(set) == m.row(
            PickGroup::ImplementationFunctions,
            b,
        ).column(set),
        m.row(PickGroup::TraitFunctions, a).column(set) == m.row(
            PickGroup::TraitFunctions,
            b,
        ).column(set),
        m.row(PickGroup::Globals, a).column(set) == m.row(PickGroup::Globals, b).column(set),
{
}

} // verus!
