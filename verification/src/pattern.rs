//! The `Pattern` key: an architectural pick tagged by its `PickGroup` with a
//! group-shaped payload, and its `<group_wire>:<name>` wire form.

use vstd::prelude::*;
use crate::picks::{lemma_group_wire_has_no_colon, lemma_group_wire_round_trip, PickGroup};
use crate::text::{
    chars_of, contains_seq, find_from, find_from_exec, lemma_find_from_is_leftmost,
    lemma_find_from_sound, occurs_at, push_str, split_once, str_eq, string_of_range,
};

verus! {

/// The mathematical value of a `Pattern`: the same shape with each name taken
/// as its character sequence.
pub ghost enum PatternView {
    Traits(Seq<char>),
    TraitFunctions { outer: Seq<char>, inner: Seq<char> },
    Structure(Seq<char>),
    ImplementationFunctions { outer: Seq<char>, inner: Seq<char> },
    Derives(Seq<char>),
    Utilities(Seq<char>),
    Globals(Seq<char>),
}

/// The two-character compound separator `::`.
pub open spec fn path_sep() -> Seq<char> {
    seq![':', ':']
}

/// The one-character group separator `:`.
pub open spec fn group_sep() -> Seq<char> {
    seq![':']
}

/// The split of a compound name on its FIRST `::`; a name without `::`
/// yields the whole name as `outer` and an empty `inner`.
pub open spec fn split_outer_inner_view(name: Seq<char>) -> (Seq<char>, Seq<char>) {
    match split_once(name, path_sep()) {
        Some((o, i)) => (o, i),
        None => (name, Seq::empty()),
    }
}

/// A compound outer part that the first `::` of `<outer>::<inner>` splits
/// back off: it holds no `::` and does not end with `:`.
pub open spec fn outer_splits_cleanly(outer: Seq<char>) -> bool {
    &&& forall|k: int| !occurs_at(outer, path_sep(), k)
    &&& !(outer.len() > 0 && outer.last() == ':')
}

impl PatternView {
    /// The bare group discriminant.
    pub open spec fn kind(self) -> PickGroup {
        match self {
            PatternView::Traits(_) => PickGroup::Traits,
            PatternView::TraitFunctions { .. } => PickGroup::TraitFunctions,
            PatternView::Structure(_) => PickGroup::Structure,
            PatternView::ImplementationFunctions { .. } => PickGroup::ImplementationFunctions,
            PatternView::Derives(_) => PickGroup::Derives,
            PatternView::Utilities(_) => PickGroup::Utilities,
            PatternView::Globals(_) => PickGroup::Globals,
        }
    }

    /// The `<name>` part of the wire form: the bare name, or `<outer>::<inner>`.
    pub open spec fn name(self) -> Seq<char> {
        match self {
            PatternView::Traits(n) => n,
            PatternView::Structure(n) => n,
            PatternView::Derives(n) => n,
            PatternView::Utilities(n) => n,
            PatternView::Globals(n) => n,
            PatternView::TraitFunctions { outer, inner } => outer + path_sep() + inner,
            PatternView::ImplementationFunctions { outer, inner } => outer + path_sep() + inner,
        }
    }

    /// The wire form `<group_wire>:<name>`.
    pub open spec fn wire(self) -> Seq<char> {
        self.kind().wire_view() + group_sep() + self.name()
    }

    /// The compound parts, when present, split back off cleanly: the pattern
    /// space over which the wire form is injective.
    pub open spec fn well_keyed(self) -> bool {
        match self {
            PatternView::TraitFunctions { outer, .. } => outer_splits_cleanly(outer),
            PatternView::ImplementationFunctions { outer, .. } => outer_splits_cleanly(outer),
            _ => true,
        }
    }

    /// The pattern of group `group` whose wire `<name>` part is `name`.
    pub open spec fn from_group_name(group: PickGroup, name: Seq<char>) -> PatternView {
        match group {
            PickGroup::Traits => PatternView::Traits(name),
            PickGroup::Structure => PatternView::Structure(name),
            PickGroup::Derives => PatternView::Derives(name),
            PickGroup::Utilities => PatternView::Utilities(name),
            PickGroup::Globals => PatternView::Globals(name),
            PickGroup::ImplementationFunctions => PatternView::ImplementationFunctions {
                outer: split_outer_inner_view(name).0,
                inner: split_outer_inner_view(name).1,
            },
            PickGroup::TraitFunctions => PatternView::TraitFunctions {
                outer: split_outer_inner_view(name).0,
                inner: split_outer_inner_view(name).1,
            },
        }
    }

    /// The pattern a wire string parses to: split on the first `:`, the
    /// prefix must be a known group wire form.
    pub open spec fn from_wire(s: Seq<char>) -> Option<PatternView> {
        match split_once(s, group_sep()) {
            None => None,
            Some((g, n)) => match PickGroup::from_wire_view(g) {
                None => None,
                Some(group) => Some(PatternView::from_group_name(group, n)),
            },
        }
    }
}

/// A single picks-data pattern: an architectural pick tagged by its
/// `PickGroup` with the group-shaped payload.
#[derive(Debug, Clone, Hash)]
pub enum Pattern {
    Traits(String),
    TraitFunctions { outer: String, inner: String },
    Structure(String),
    ImplementationFunctions { outer: String, inner: String },
    Derives(String),
    Utilities(String),
    Globals(String),
}

impl View for Pattern {
    type V = PatternView;

    open spec fn view(&self) -> PatternView {
        match self {
            Pattern::Traits(n) => PatternView::Traits(n@),
            Pattern::TraitFunctions { outer, inner } => PatternView::TraitFunctions {
                outer: outer@,
                inner: inner@,
            },
            Pattern::Structure(n) => PatternView::Structure(n@),
            Pattern::ImplementationFunctions { outer, inner } =>
                PatternView::ImplementationFunctions { outer: outer@, inner: inner@ },
            Pattern::Derives(n) => PatternView::Derives(n@),
            Pattern::Utilities(n) => PatternView::Utilities(n@),
            Pattern::Globals(n) => PatternView::Globals(n@),
        }
    }
}

impl PartialEq for Pattern {
    fn eq(&self, other: &Self) -> (r: bool) {
        match (self, other) {
            (Pattern::Traits(a), Pattern::Traits(b)) => str_eq(a.as_str(), b.as_str()),
            (Pattern::Structure(a), Pattern::Structure(b)) => str_eq(a.as_str(), b.as_str()),
            (Pattern::Derives(a), Pattern::Derives(b)) => str_eq(a.as_str(), b.as_str()),
            (Pattern::Utilities(a), Pattern::Utilities(b)) => str_eq(a.as_str(), b.as_str()),
            (Pattern::Globals(a), Pattern::Globals(b)) => str_eq(a.as_str(), b.as_str()),
            (
                Pattern::TraitFunctions { outer: a, inner: b },
                Pattern::TraitFunctions { outer: c, inner: d },
            ) => str_eq(a.as_str(), c.as_str()) && str_eq(b.as_str(), d.as_str()),
            (
                Pattern::ImplementationFunctions { outer: a, inner: b },
                Pattern::ImplementationFunctions { outer: c, inner: d },
            ) => str_eq(a.as_str(), c.as_str()) && str_eq(b.as_str(), d.as_str()),
            _ => false,
        }
    }
}

impl vstd::std_specs::cmp::PartialEqSpecImpl for Pattern {
    open spec fn obeys_eq_spec() -> bool {
        true
    }

    open spec fn eq_spec(&self, other: &Pattern) -> bool {
        self@ == other@
    }
}

impl Eq for Pattern {
}

impl Pattern {
    /// The bare discriminant (the Copy kind-mirror) of this pattern.
    pub fn kind(&self) -> (r: PickGroup)
        ensures
            r == self@.kind(),
    {
        match self {
            Pattern::Traits(_) => PickGroup::Traits,
            Pattern::TraitFunctions { .. } => PickGroup::TraitFunctions,
            Pattern::Structure(_) => PickGroup::Structure,
            Pattern::ImplementationFunctions { .. } => PickGroup::ImplementationFunctions,
            Pattern::Derives(_) => PickGroup::Derives,
            Pattern::Utilities(_) => PickGroup::Utilities,
            Pattern::Globals(_) => PickGroup::Globals,
        }
    }

    /// A copy of this pattern.
    pub fn duplicate(&self) -> (r: Pattern)
        ensures
            r@ == self@,
    {
        match self {
            Pattern::Traits(n) => Pattern::Traits(n.clone()),
            Pattern::TraitFunctions { outer, inner } => Pattern::TraitFunctions { outer: outer.clone(), inner: inner.clone() },
            Pattern::Structure(n) => Pattern::Structure(n.clone()),
            Pattern::ImplementationFunctions { outer, inner } => Pattern::ImplementationFunctions {
                outer: outer.clone(),
                inner: inner.clone(),
            },
            Pattern::Derives(n) => Pattern::Derives(n.clone()),
            Pattern::Utilities(n) => Pattern::Utilities(n.clone()),
            Pattern::Globals(n) => Pattern::Globals(n.clone()),
        }
    }

    /// The `<name>` portion of the wire form: the bare name for the
    /// single-name variants, `<outer>::<inner>` for the compound ones.
    pub fn name(&self) -> (r: String)
        ensures
            r@ == self@.name(),
    {
        match self {
            Pattern::Traits(n)
            | Pattern::Structure(n)
            | Pattern::Derives(n)
            | Pattern::Utilities(n)
            | Pattern::Globals(n) => n.clone(),
            Pattern::TraitFunctions { outer, inner }
            | Pattern::ImplementationFunctions { outer, inner } => {
                let mut s = outer.clone();
                push_str(&mut s, "::");
                push_str(&mut s, inner.as_str());
                proof {
                    reveal_strlit("::");
                }
                s
            },
        }
    }

    /// The wire form `<group_wire>:<name>` (e.g. `structure:Component`,
    /// `implementation_functions:World::new`).
    pub fn to_string(&self) -> (r: String)
        ensures
            r@ == self@.wire(),
    {
        let mut s = String::new();
        push_str(&mut s, self.kind().wire());
        s.push(':');
        let n = self.name();
        push_str(&mut s, n.as_str());
        s
    }

    /// A `Traits` pattern.
    pub fn traits(name: &str) -> (r: Pattern)
        ensures
            r@ == PatternView::Traits(name@),
    {
        Pattern::Traits(name.to_owned())
    }

    /// A `Structure` pattern.
    pub fn structure(name: &str) -> (r: Pattern)
        ensures
            r@ == PatternView::Structure(name@),
    {
        Pattern::Structure(name.to_owned())
    }

    /// A `Derives` pattern.
    pub fn derives(name: &str) -> (r: Pattern)
        ensures
            r@ == PatternView::Derives(name@),
    {
        Pattern::Derives(name.to_owned())
    }

    /// A `Utilities` pattern.
    pub fn utilities(name: &str) -> (r: Pattern)
        ensures
            r@ == PatternView::Utilities(name@),
    {
        Pattern::Utilities(name.to_owned())
    }

    /// A `Globals` pattern.
    pub fn globals(name: &str) -> (r: Pattern)
        ensures
            r@ == PatternView::Globals(name@),
    {
        Pattern::Globals(name.to_owned())
    }

    /// An `ImplementationFunctions` pattern `<outer>::<inner>`.
    pub fn impl_fn(outer: &str, inner: &str) -> (r: Pattern)
        ensures
            r@ == (PatternView::ImplementationFunctions { outer: outer@, inner: inner@ }),
    {
        Pattern::ImplementationFunctions { outer: outer.to_owned(), inner: inner.to_owned() }
    }

    /// A `TraitFunctions` pattern `<outer>::<inner>`.
    pub fn trait_fn(outer: &str, inner: &str) -> (r: Pattern)
        ensures
            r@ == (PatternView::TraitFunctions { outer: outer@, inner: inner@ }),
    {
        Pattern::TraitFunctions { outer: outer.to_owned(), inner: inner.to_owned() }
    }

    /// Builds a `Pattern` from a `(PickGroup, name)` pair, splitting the name
    /// on its first `::` for the compound groups.
    pub fn from_group_name(group: PickGroup, name: &str) -> (r: Pattern)
        ensures
            r@ == PatternView::from_group_name(group, name@),
    {
        match group {
            PickGroup::Traits => Pattern::Traits(name.to_owned()),
            PickGroup::Structure => Pattern::Structure(name.to_owned()),
            PickGroup::Derives => Pattern::Derives(name.to_owned()),
            PickGroup::Utilities => Pattern::Utilities(name.to_owned()),
            PickGroup::Globals => Pattern::Globals(name.to_owned()),
            PickGroup::ImplementationFunctions => {
                let (outer, inner) = split_outer_inner(name);
                Pattern::ImplementationFunctions { outer, inner }
            },
            PickGroup::TraitFunctions => {
                let (outer, inner) = split_outer_inner(name);
                Pattern::TraitFunctions { outer, inner }
            },
        }
    }

    /// Parses a wire-form `<group_wire>:<name>` string; `None` on an unknown
    /// group prefix or a missing `:`.
    pub fn from_wire(s: &str) -> (r: Option<Pattern>)
        ensures
            match r {
                Some(p) => PatternView::from_wire(s@) == Some(p@),
                None => PatternView::from_wire(s@) is None,
            },
    {
        let cs = chars_of(s);
        let colon = vec![':'];
        let found = find_from_exec(&cs, &colon, 0);
        proof {
            assert(colon@ =~= group_sep());
            crate::text::lemma_find_from_sound(cs@, colon@, 0);
        }
        match found {
            None => None,
            Some(i) => {
                let g = string_of_range(&cs, 0, i);
                match PickGroup::from_wire(g.as_str()) {
                    None => None,
                    Some(group) => {
                        assert(occurs_at(cs@, colon@, i as int));
                        assert(colon@.len() == 1);
                        let len = cs.len();
                        assert(i + 1 <= len);
                        let n = string_of_range(&cs, i + 1, len);
                        Some(Pattern::from_group_name(group, n.as_str()))
                    },
                }
            },
        }
    }
}

/// Splits a compound `<outer>::<inner>` name on the FIRST `::`; no `::`
/// yields the whole string as `outer` and an empty `inner`.
fn split_outer_inner(name: &str) -> (r: (String, String))
    ensures
        (r.0@, r.1@) == split_outer_inner_view(name@),
{
    let cs = chars_of(name);
    let sep = vec![':', ':'];
    let found = find_from_exec(&cs, &sep, 0);
    proof {
        assert(sep@ =~= path_sep());
        crate::text::lemma_find_from_sound(cs@, sep@, 0);
    }
    match found {
        Some(i) => {
            assert(occurs_at(cs@, sep@, i as int));
            let len = cs.len();
            assert(i + 2 <= len);
            (string_of_range(&cs, 0, i), string_of_range(&cs, i + 2, len))
        },
        None => (name.to_owned(), String::new()),
    }
}

/// The first `:` of a pattern's wire form is the group separator: the split
/// recovers the group wire form and the name.
proof fn lemma_wire_splits_at_group(p: PatternView)
    ensures
        split_once(p.wire(), group_sep()) == Some((p.kind().wire_view(), p.name())),
{
    let gw = p.kind().wire_view();
    let s = p.wire();
    let at = gw.len() as int;
    lemma_group_wire_has_no_colon(p.kind());
    assert(s.subrange(at, at + 1) =~= group_sep());
    assert forall|k: int| 0 <= k < at implies !occurs_at(s, group_sep(), k) by {
        if occurs_at(s, group_sep(), k) {
            assert(s.subrange(k, k + 1)[0] == s[k]);
            assert(s[k] == gw[k]);
        }
    }
    lemma_find_from_is_leftmost(s, group_sep(), 0, at);
    assert(s.subrange(0, at) =~= gw);
    assert(s.subrange(at + 1, s.len() as int) =~= p.name());
}

/// A compound name built from a cleanly splitting outer part splits back into
/// exactly its parts.
proof fn lemma_compound_name_splits(outer: Seq<char>, inner: Seq<char>)
    requires
        outer_splits_cleanly(outer),
    ensures
        split_outer_inner_view(outer + path_sep() + inner) == (outer, inner),
{
    let n = outer + path_sep() + inner;
    let at = outer.len() as int;
    assert(n.subrange(at, at + 2) =~= path_sep());
    assert forall|k: int| 0 <= k < at implies !occurs_at(n, path_sep(), k) by {
        if occurs_at(n, path_sep(), k) {
            assert(n.subrange(k, k + 2)[0] == n[k]);
            assert(n.subrange(k, k + 2)[1] == n[k + 1]);
            if k + 2 <= at {
                assert(outer.subrange(k, k + 2) =~= n.subrange(k, k + 2));
                assert(occurs_at(outer, path_sep(), k));
            } else {
                assert(outer.last() == n[k]);
            }
        }
    }
    lemma_find_from_is_leftmost(n, path_sep(), 0, at);
    assert(n.subrange(0, at) =~= outer);
    assert(n.subrange(at + 2, n.len() as int) =~= inner);
}

/// Wire round trip: parsing a well-keyed pattern's wire form gives the
/// pattern back.
pub proof fn lemma_pattern_wire_round_trip(p: PatternView)
    requires
        p.well_keyed(),
    ensures
        PatternView::from_wire(p.wire()) == Some(p),
{
    lemma_wire_splits_at_group(p);
    lemma_group_wire_round_trip(p.kind(), p.kind().wire_view());
    match p {
        PatternView::TraitFunctions { outer, inner } => lemma_compound_name_splits(outer, inner),
        PatternView::ImplementationFunctions { outer, inner } => lemma_compound_name_splits(
            outer,
            inner,
        ),
        _ => {},
    }
}

/// The wire form is injective over well-keyed patterns: distinct patterns
/// render to distinct wire strings, so ordering patterns by their wire form
/// is consistent with equality.
pub proof fn lemma_pattern_wire_injective(p: PatternView, q: PatternView)
    requires
        p.well_keyed(),
        q.well_keyed(),
        p.wire() == q.wire(),
    ensures
        p == q,
{
    lemma_pattern_wire_round_trip(p);
    lemma_pattern_wire_round_trip(q);
}

/// A successful split reassembles to its input around the separator.
proof fn lemma_split_reassembles(s: Seq<char>, sep: Seq<char>)
    ensures
        split_once(s, sep) matches Some((a, b)) ==> s == a + sep + b,
        split_once(s, sep) is None <==> !contains_seq(s, sep),
{
    lemma_find_from_sound(s, sep, 0);
    if let Some(i) = find_from(s, sep, 0) {
        assert(s =~= s.subrange(0, i) + sep + s.subrange(i + sep.len(), s.len() as int)) by {
            assert(s.subrange(i, i + sep.len()) =~= sep);
        }
    } else {
        if contains_seq(s, sep) {
            let w = choose|w: int| occurs_at(s, sep, w);
            assert(occurs_at(s, sep, w));
        }
    }
}

/// The outer part split off at the first `::` splits cleanly.
proof fn lemma_split_outer_is_clean(n: Seq<char>)
    requires
        contains_seq(n, path_sep()),
    ensures
        outer_splits_cleanly(split_outer_inner_view(n).0),
{
    lemma_split_reassembles(n, path_sep());
    lemma_find_from_sound(n, path_sep(), 0);
    let i = find_from(n, path_sep(), 0).unwrap();
    let outer = n.subrange(0, i);
    assert forall|k: int| !occurs_at(outer, path_sep(), k) by {
        if occurs_at(outer, path_sep(), k) {
            assert(n.subrange(k, k + 2) =~= outer.subrange(k, k + 2));
            assert(occurs_at(n, path_sep(), k));
        }
    }
    if outer.len() > 0 && outer.last() == ':' {
        assert(n.subrange(i, i + 2)[0] == n[i]);
        assert(n.subrange(i - 1, i + 1) =~= path_sep());
        assert(occurs_at(n, path_sep(), i - 1));
    }
}

/// What parsing yields: a parsed pattern has the group named before the first
/// `:`, and it re-renders to the input string unless it is a compound key
/// whose name part carries no `::` (then the rendering appends `::` to the
/// name, its inner part being empty).
pub proof fn lemma_parsed_pattern_rerenders(s: Seq<char>)
    ensures
        PatternView::from_wire(s) matches Some(p) ==> {
            &&& split_once(s, group_sep()) matches Some((g, n))
            &&& PickGroup::from_wire_view(g) == Some(p.kind())
            &&& if p.kind().is_compound() && !contains_seq(n, path_sep()) {
                p.name() == n + path_sep()
            } else {
                p.well_keyed() && p.wire() == s
            }
        },
{
    if let Some(p) = PatternView::from_wire(s) {
        let (g, n) = split_once(s, group_sep()).unwrap();
        let group = PickGroup::from_wire_view(g).unwrap();
        lemma_group_wire_round_trip(group, g);
        lemma_split_reassembles(s, group_sep());
        lemma_split_reassembles(n, path_sep());
        if group.is_compound() {
            if contains_seq(n, path_sep()) {
                lemma_split_outer_is_clean(n);
            } else {
                assert(p.name() =~= n + path_sep());
            }
        }
    }
}

} // verus!
