//! Locations, their identifiers, and the accessibility rules attached to
//! them.
//!
//! An accessibility rule is kept as data: the conjunction of "the assumed
//! item set contains item X" requirements. Rules of this shape are monotone
//! by construction — growing the assumed set never falsifies a rule — which
//! is the soundness contract the assumed-fill algorithm depends on.

use vstd::prelude::*;

use crate::randomizer::item::LabelledItem;

verus! {

/// The unique identifier of a location. Identity and equality of locations
/// go by this identifier alone.
#[derive(Copy, Clone, Debug, PartialEq, Eq, Hash, Structural)]
pub enum LocId {
    Loc0,
    Loc1,
    Loc2,
    Loc3,
    Loc4,
    Loc5,
}

/// An accessibility rule: the location is reachable exactly when every item
/// listed here is in the assumed item set.
#[derive(Debug)]
pub struct IsAccessible(pub Vec<LabelledItem>);

impl IsAccessible {
    /// What the rule means: every required item occurs in the assumed set.
    pub open spec fn spec_accessible(self, assumed: Seq<LabelledItem>) -> bool {
        forall|i: int| 0 <= i < self.0@.len() ==> assumed.contains(#[trigger] self.0@[i])
    }

    /// Evaluates the rule against an assumed item set.
    pub fn is_accessible(&self, assumed: &[LabelledItem]) -> (r: bool)
        ensures
            r == self.spec_accessible(assumed@),
    {
        let mut i: usize = 0;
        while i < self.0.len()
            invariant
                i <= self.0@.len(),
                forall|j: int| 0 <= j < i ==> assumed@.contains(#[trigger] self.0@[j]),
            decreases self.0@.len() - i,
        {
            if !has_item(assumed, self.0[i]) {
                return false;
            }
            i = i + 1;
        }
        true
    }

    /// Monotonicity: an accessibility rule that holds for an assumed set
    /// still holds for any superset of it.
    pub proof fn lemma_accessible_monotone(self, smaller: Seq<LabelledItem>, larger: Seq<LabelledItem>)
        requires
            self.spec_accessible(smaller),
            forall|item: LabelledItem| smaller.contains(item) ==> larger.contains(item),
        ensures
            self.spec_accessible(larger),
    {
    }
}

/// A location: its identifier paired with its accessibility rule.
#[derive(Debug)]
pub struct Location(pub LocId, pub IsAccessible);

impl PartialEq for Location {
    /// Locations are equal exactly when their identifiers are; the rule is
    /// not compared.
    fn eq(&self, other: &Location) -> (r: bool) {
        self.0 == other.0
    }
}

impl vstd::std_specs::cmp::PartialEqSpecImpl for Location {
    open spec fn obeys_eq_spec() -> bool {
        true
    }

    open spec fn eq_spec(&self, other: &Location) -> bool {
        self.0 == other.0
    }
}

/// Whether the given item occurs in the assumed item set.
pub fn has_item(items: &[LabelledItem], item: LabelledItem) -> (r: bool)
    ensures
        r == items@.contains(item),
{
    let mut i: usize = 0;
    while i < items.len()
        invariant
            i <= items@.len(),
            forall|j: int| 0 <= j < i ==> items@[j] != item,
        decreases items@.len() - i,
    {
        if items[i] == item {
            return true;
        }
        i = i + 1;
    }
    false
}

} // verus!
