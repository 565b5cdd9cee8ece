//! Ordering of patterns by their wire form, so that pattern-keyed maps keep
//! the alphabetical key order of the `<group_wire>:<name>` strings.

use vstd::prelude::*;
use std::cmp::Ordering;
use crate::pattern::{lemma_pattern_wire_injective, Pattern, PatternView};
use crate::text::{chars_of, lemma_seq_lt_total_order, lex_compare, seq_lt};

verus! {

impl Pattern {
    /// Compares two patterns by their wire strings (lexicographically by
    /// character, as `str` ordering does).
    pub fn wire_cmp(&self, other: &Pattern) -> (r: Ordering)
        ensures
            (r == Ordering::Less) == seq_lt(self@.wire(), other@.wire()),
            (r == Ordering::Equal) == (self@.wire() == other@.wire()),
            (r == Ordering::Greater) == seq_lt(other@.wire(), self@.wire()),
    {
        let a = self.to_string();
        let b = other.to_string();
        let ca = chars_of(a.as_str());
        let cb = chars_of(b.as_str());
        let c = lex_compare(&ca, &cb);
        if c == -1 {
            Ordering::Less
        } else if c == 0 {
            Ordering::Equal
        } else {
            Ordering::Greater
        }
    }
}

/// Ordering well-keyed patterns by their wire form is a strict total order
/// that agrees with pattern equality: two patterns compare equal exactly when
/// they are the same pattern, exactly one of less / equal / greater holds, and
/// less is transitive.
pub proof fn lemma_wire_order_is_total(p: PatternView, q: PatternView, s: PatternView)
    requires
        p.well_keyed(),
        q.well_keyed(),
        s.well_keyed(),
    ensures
        (p.wire() == q.wire()) == (p == q),
        p != q ==> (seq_lt(p.wire(), q.wire()) != seq_lt(q.wire(), p.wire())),
        p == q ==> !seq_lt(p.wire(), q.wire()),
        seq_lt(p.wire(), q.wire()) && seq_lt(q.wire(), s.wire()) ==> seq_lt(p.wire(), s.wire()),
{
    lemma_seq_lt_total_order(p.wire(), q.wire(), s.wire());
    if p.wire() == q.wire() {
        lemma_pattern_wire_injective(p, q);
    }
}

} // verus!
