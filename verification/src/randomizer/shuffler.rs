//! Shuffling the world: the three input collections are permuted in a fixed
//! order — progression items first, then locations, then junk items — and
//! packaged into a length-validated aggregate.

use vstd::prelude::*;

use crate::randomizer::item::LabelledItem;
use crate::randomizer::location::Location;
use crate::rng::{apply_permutation, GameRng, is_index_permutation, shuffle_outcome};

verus! {

/// A shuffled world: locations, progression items and junk items, with
/// exactly as many locations as items in total.
pub struct Shuffled {
    locations: Vec<Location>,
    prog_items: Vec<LabelledItem>,
    junk_items: Vec<LabelledItem>,
}

impl Shuffled {
    /// The shuffled locations.
    pub closed spec fn spec_locations(self) -> Seq<Location> {
        self.locations@
    }

    /// The shuffled progression items.
    pub closed spec fn spec_prog_items(self) -> Seq<LabelledItem> {
        self.prog_items@
    }

    /// The shuffled junk items.
    pub closed spec fn spec_junk_items(self) -> Seq<LabelledItem> {
        self.junk_items@
    }

    #[verifier::type_invariant]
    spec fn count_invariant(self) -> bool {
        self.locations@.len() == self.prog_items@.len() + self.junk_items@.len()
    }

    /// Accepts the three collections exactly when there are as many
    /// locations as items in total; a count mismatch is a configuration
    /// defect and yields no aggregate.
    pub fn new(
        locations: Vec<Location>,
        prog_items: Vec<LabelledItem>,
        junk_items: Vec<LabelledItem>,
    ) -> (r: Option<Shuffled>)
        ensures
            r is Some <==> locations@.len() == prog_items@.len() + junk_items@.len(),
            r matches Some(s) ==> {
                &&& s.spec_locations() == locations@
                &&& s.spec_prog_items() == prog_items@
                &&& s.spec_junk_items() == junk_items@
            },
    {
        if locations.len() >= junk_items.len()
            && locations.len() - junk_items.len() == prog_items.len() {
            Some(Shuffled { locations, prog_items, junk_items })
        } else {
            None
        }
    }

    /// Hands the three collections out; their lengths still agree.
    pub fn get(self) -> (r: (Vec<Location>, Vec<LabelledItem>, Vec<LabelledItem>))
        ensures
            r.0@ == self.spec_locations(),
            r.1@ == self.spec_prog_items(),
            r.2@ == self.spec_junk_items(),
            r.0@.len() == r.1@.len() + r.2@.len(),
    {
        proof {
            use_type_invariant(&self);
        }
        let Shuffled { locations, prog_items, junk_items } = self;
        (locations, prog_items, junk_items)
    }
}

/// What shuffling the world does to the three collections: each is permuted
/// by the outcome the rng yields for its turn, progression items first, then
/// locations, then junk items.
pub open spec fn shuffle_world_model(
    seed: u64,
    history: Seq<nat>,
    locations: Seq<Location>,
    prog_items: Seq<LabelledItem>,
    junk_items: Seq<LabelledItem>,
) -> (Seq<Location>, Seq<LabelledItem>, Seq<LabelledItem>) {
    let shuffled_prog = apply_permutation(prog_items, shuffle_outcome(seed, history, prog_items.len()));
    let history_after_prog = history.push(prog_items.len());
    let shuffled_locs = apply_permutation(locations, shuffle_outcome(seed, history_after_prog, locations.len()));
    let history_after_locs = history_after_prog.push(locations.len());
    let shuffled_junk = apply_permutation(junk_items, shuffle_outcome(seed, history_after_locs, junk_items.len()));
    (shuffled_locs, shuffled_prog, shuffled_junk)
}

/// Shuffles the three collections in the fixed order — progression items,
/// locations, junk items — consuming rng state for each, and packages them;
/// a count mismatch yields `None`, after the rng state has advanced all the
/// same.
pub fn shuffle_world(
    rng: &mut GameRng,
    locations: Vec<Location>,
    prog_items: Vec<LabelledItem>,
    junk_items: Vec<LabelledItem>,
) -> (r: Option<Shuffled>)
    ensures
        final(rng).spec_seed() == old(rng).spec_seed(),
        final(rng).spec_history() == old(rng).spec_history().push(prog_items@.len()).push(
            locations@.len(),
        ).push(junk_items@.len()),
        r is Some <==> locations@.len() == prog_items@.len() + junk_items@.len(),
        r matches Some(s) ==> {
            let (shuffled_locs, shuffled_prog, shuffled_junk) = shuffle_world_model(
                old(rng).spec_seed().spec_int_seed(),
                old(rng).spec_history(),
                locations@,
                prog_items@,
                junk_items@,
            );
            &&& s.spec_locations() == shuffled_locs
            &&& s.spec_prog_items() == shuffled_prog
            &&& s.spec_junk_items() == shuffled_junk
            &&& is_index_permutation(
                shuffle_outcome(
                    old(rng).spec_seed().spec_int_seed(),
                    old(rng).spec_history().push(prog_items@.len()),
                    locations@.len(),
                ),
                locations@.len(),
            )
            &&& s.spec_locations().to_multiset() == locations@.to_multiset()
            &&& s.spec_prog_items().to_multiset() == prog_items@.to_multiset()
            &&& s.spec_junk_items().to_multiset() == junk_items@.to_multiset()
        },
{
    let prog_items = rng.shuffle(prog_items);
    let locations = rng.shuffle(locations);
    let junk_items = rng.shuffle(junk_items);
    Shuffled::new(locations, prog_items, junk_items)
}

} // verus!
