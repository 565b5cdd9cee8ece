use std::collections::HashMap;
use know_rust::pattern::Pattern;
use know_rust::picks::{
    PickGroup, PickSelector, PickSet, PickSetCategory, SubForm, CARRY_GROUPS, NO_CARRY_GROUPS, PER_CRATE_SETS,
    WORKSPACE_WIDE_SETS,
};

#[test]
fn pickgroup_carryable_partition() {
    let carry = CARRY_GROUPS.iter().filter(|g| g.carryable()).count();
    let no_carry = NO_CARRY_GROUPS.iter().filter(|g| !g.carryable()).count();
    assert_eq!(carry, 5);
    assert_eq!(no_carry, 2);
}

#[test]
fn pickset_category_partition() {
    let ww = WORKSPACE_WIDE_SETS
        .iter()
        .filter(|s| s.category() == PickSetCategory::WorkspaceWide)
        .count();
    let pc = PER_CRATE_SETS
        .iter()
        .filter(|s| s.category() == PickSetCategory::PerCrate)
        .count();
    assert_eq!(ww, 4);
    assert_eq!(pc, 2);
}

#[test]
fn pattern_display() {
    assert_eq!(
        Pattern::structure("Component").to_string(),
        "structure:Component"
    );
    assert_eq!(Pattern::derives("Clone").to_string(), "derives:Clone");
    assert_eq!(
        Pattern::impl_fn("World", "new").to_string(),
        "implementation_functions:World::new"
    );
    assert_eq!(
        Pattern::impl_fn("_", "update").to_string(),
        "implementation_functions:_::update"
    );
    assert_eq!(
        Pattern::trait_fn("Handler", "handle").to_string(),
        "trait_functions:Handler::handle"
    );
    // kind() is the Copy discriminant mirror.
    assert_eq!(Pattern::structure("X").kind(), PickGroup::Structure);
    assert_eq!(
        Pattern::impl_fn("A", "b").kind(),
        PickGroup::ImplementationFunctions
    );
    // wire round-trip via from_wire.
    for p in [
        Pattern::structure("Component"),
        Pattern::derives("Clone"),
        Pattern::impl_fn("World", "new"),
        Pattern::impl_fn("_", "update"),
        Pattern::trait_fn("Handler", "handle"),
    ] {
        assert_eq!(
            Pattern::from_wire(&p.to_string()),
            Some(p.clone()),
            "round-trip {}",
            p.to_string()
        );
    }
}

#[test]
fn subform_valid_for_partition() {
    assert!(SubForm::Foundational.valid_for(PickGroup::Structure));
    assert!(SubForm::Incidental.valid_for(PickGroup::Structure));
    assert!(!SubForm::Foundational.valid_for(PickGroup::Traits));
    assert!(SubForm::Configured.valid_for(PickGroup::Derives));
    assert!(!SubForm::Configured.valid_for(PickGroup::Traits));
    assert!(SubForm::Marker.valid_for(PickGroup::Derives));
    assert!(SubForm::Marker.valid_for(PickGroup::Traits));
    assert!(!SubForm::Marker.valid_for(PickGroup::Structure));
    assert!(SubForm::Lifecycle.valid_for(PickGroup::Traits));
    assert!(!SubForm::Lifecycle.valid_for(PickGroup::Derives));
    assert!(SubForm::FreeFn.valid_for(PickGroup::Utilities));
    assert!(SubForm::Macro.valid_for(PickGroup::Utilities));
    assert!(!SubForm::FreeFn.valid_for(PickGroup::Structure));
    for g in [
        PickGroup::ImplementationFunctions,
        PickGroup::TraitFunctions,
        PickGroup::Globals,
    ] {
        for sf in [
            SubForm::Foundational,
            SubForm::Incidental,
            SubForm::Configured,
            SubForm::Marker,
            SubForm::Lifecycle,
            SubForm::FreeFn,
            SubForm::Macro,
        ] {
            assert!(
                !sf.valid_for(g),
                "{:?} should not be valid for {:?}",
                sf,
                g
            );
        }
    }
}

#[test]
fn pattern_hashable() {
    let mut map: HashMap<Pattern, usize> = HashMap::new();
    map.insert(Pattern::structure("Component"), 1);
    map.insert(Pattern::derives("Clone"), 2);
    assert_eq!(map.len(), 2);
    assert_eq!(map.get(&Pattern::structure("Component")), Some(&1));
}

#[test]
fn pickselector_round_trip() {
    for (sel, wire) in [(PickSelector::Picked, "picked"), (PickSelector::Carried, "carried")] {
        assert_eq!(sel.wire(), wire);
        assert_eq!(PickSelector::from_wire(sel.wire()), Some(sel));
    }
    assert_eq!(PickSelector::from_wire("Picked"), None);
}

#[test]
fn pickgroup_round_trip() {
    for g in CARRY_GROUPS.iter().chain(NO_CARRY_GROUPS.iter()) {
        assert_eq!(PickGroup::from_wire(g.wire()), Some(*g));
    }
    assert_eq!(PickGroup::Derives.wire(), "derives");
    assert_eq!(PickGroup::ImplementationFunctions.wire(), "implementation_functions");
    assert_eq!(PickGroup::from_wire("structures"), None);
}

#[test]
fn pickset_round_trip() {
    for s in WORKSPACE_WIDE_SETS.iter().chain(PER_CRATE_SETS.iter()) {
        assert_eq!(PickSet::from_wire(s.wire()), Some(*s));
    }
    assert_eq!(PickSet::InterCrate.wire(), "inter_crate");
    assert_eq!(PickSet::from_wire("intercrate"), None);
}

#[test]
fn picksetcategory_round_trip() {
    for (c, wire) in [
        (PickSetCategory::WorkspaceWide, "workspace_wide"),
        (PickSetCategory::PerCrate, "per_crate"),
    ] {
        assert_eq!(c.wire(), wire);
        assert_eq!(PickSetCategory::from_wire(c.wire()), Some(c));
    }
    assert_eq!(PickSetCategory::from_wire(""), None);
}

#[test]
fn subform_wire_round_trip() {
    for sf in [
        SubForm::Foundational,
        SubForm::Incidental,
        SubForm::Configured,
        SubForm::Marker,
        SubForm::Lifecycle,
        SubForm::FreeFn,
        SubForm::Macro,
    ] {
        assert_eq!(SubForm::from_wire(sf.wire()), Some(sf));
    }
    assert_eq!(SubForm::FreeFn.wire(), "free_fn");
    assert_eq!(SubForm::from_wire("free-fn"), None);
}
