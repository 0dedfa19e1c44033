//! The order-preserving set of remaining location ids.
//!
//! The set is linked_hash_set's `LinkedHashSet`, kept because the fast
//! filler pairs the remaining locations in the order they were shuffled, not
//! in an arbitrary hash order. Its contents are modelled as the sequence of
//! ids in insertion order, front to back.

use vstd::prelude::*;

use linked_hash_set::LinkedHashSet;

use crate::randomizer::location::LocId;

verus! {

#[verifier::external_type_specification]
#[verifier::external_body]
#[verifier::reject_recursive_types(T)]
#[verifier::reject_recursive_types(S)]
pub struct ExLinkedHashSet<T, S>(LinkedHashSet<T, S>);

/// The ids a `LinkedHashSet` holds, in insertion order, front to back.
pub uninterp spec fn loc_set_elems(s: LinkedHashSet<LocId>) -> Seq<LocId>;

/// Relies on linked_hash_set's `LinkedHashSet::new`: the set starts empty.
#[verifier::external_body]
pub fn loc_set_new() -> (s: LinkedHashSet<LocId>)
    ensures
        loc_set_elems(s) == Seq::<LocId>::empty(),
{
    LinkedHashSet::new()
}

/// Relies on linked_hash_set's `LinkedHashSet::insert`: a new value goes to
/// the back of the insertion order and `true` is returned; a value already
/// present is moved to the back and `false` is returned.
#[verifier::external_body]
pub fn loc_set_insert(s: &mut LinkedHashSet<LocId>, id: LocId) -> (was_new: bool)
    ensures
        was_new == !loc_set_elems(*old(s)).contains(id),
        loc_set_elems(*final(s)) == (if loc_set_elems(*old(s)).contains(id) {
            loc_set_elems(*old(s)).remove_value(id).push(id)
        } else {
            loc_set_elems(*old(s)).push(id)
        }),
{
    s.insert(id)
}

/// Relies on linked_hash_set's `LinkedHashSet::remove`: the value leaves the
/// set, the order of the others is kept, and the return value says whether
/// it was present.
#[verifier::external_body]
pub fn loc_set_remove(s: &mut LinkedHashSet<LocId>, id: LocId) -> (was_present: bool)
    ensures
        was_present == loc_set_elems(*old(s)).contains(id),
        loc_set_elems(*final(s)) == loc_set_elems(*old(s)).remove_value(id),
{
    s.remove(&id)
}

/// Relies on linked_hash_set's `LinkedHashSet::len`: the number of values in
/// the set.
#[verifier::external_body]
pub fn loc_set_len(s: &LinkedHashSet<LocId>) -> (n: usize)
    ensures
        n as nat == loc_set_elems(*s).len(),
{
    s.len()
}

/// Relies on linked_hash_set's iteration order: values come out front to
/// back in insertion order.
#[verifier::external_body]
pub fn loc_set_to_vec(s: LinkedHashSet<LocId>) -> (v: Vec<LocId>)
    ensures
        v@ == loc_set_elems(s),
{
    s.into_iter().collect()
}

} // verus!
