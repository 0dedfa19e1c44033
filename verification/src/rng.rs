//! The deterministic rng: one seeded standard rng behind a single shuffle
//! operation.
//!
//! The rng's visible state is modelled by the integer seed it was created
//! from and the history of slice lengths it has shuffled so far. The
//! permutation a shuffle applies is a function of exactly these, so a fixed
//! seed and a fixed order of shuffle calls reproduce the same outputs.

use vstd::prelude::*;

use rand::SeedableRng;
use rand::seq::SliceRandom;

use crate::randomizer::seed::Seed;

verus! {

#[verifier::external_type_specification]
#[verifier::external_body]
pub struct ExStdRng(rand::rngs::StdRng);

/// The index permutation that a standard rng seeded with `seed` applies to a
/// slice of length `len`, after having already shuffled slices of the
/// lengths in `history`, in that order.
pub uninterp spec fn shuffle_outcome(seed: u64, history: Seq<nat>, len: nat) -> Seq<int>;

/// Whether `p` is a permutation of the indices `0..n`.
pub open spec fn is_index_permutation(p: Seq<int>, n: nat) -> bool {
    &&& p.len() == n
    &&& forall|i: int| 0 <= i < p.len() ==> 0 <= #[trigger] p[i] < n
    &&& forall|i: int, j: int| 0 <= i < j < p.len() ==> p[i] != p[j]
}

/// The sequence `s` rearranged by the index permutation `p`.
pub open spec fn apply_permutation<T>(s: Seq<T>, p: Seq<int>) -> Seq<T>
    recommends
        is_index_permutation(p, s.len()),
{
    Seq::new(p.len(), |i: int| s[p[i]])
}

/// The deterministic rng: a standard rng seeded from the integer seed, the
/// retained seed for later display, and the ghost history of shuffle calls.
pub struct GameRng {
    rng: rand::rngs::StdRng,
    seed: Seed,
    history: Ghost<Seq<nat>>,
}

impl GameRng {
    /// The seed this rng was created from.
    pub closed spec fn spec_seed(self) -> Seed {
        self.seed
    }

    /// The lengths of the slices shuffled so far, oldest first.
    pub closed spec fn spec_history(self) -> Seq<nat> {
        self.history@
    }

    /// A deterministic rng seeded from the given seed's integer value, with
    /// an empty shuffle history.
    pub fn new(seed: Seed) -> (rng: GameRng)
        ensures
            rng.spec_seed() == seed,
            rng.spec_history() == Seq::<nat>::empty(),
    {
        let std_rng = seed_std_rng(seed.get_int_seed_clone());
        GameRng { rng: std_rng, seed, history: Ghost(Seq::empty()) }
    }

    /// Relies on rand's `SliceRandom::shuffle`: a Fisher–Yates pass whose
    /// index draws depend only on the rng state and the slice length, so the
    /// permutation it applies is a function of the seed, the lengths
    /// shuffled before, and the length shuffled now; it rearranges the
    /// elements and neither adds, drops nor alters any.
    #[verifier::external_body]
    pub fn shuffle<T>(&mut self, vec: Vec<T>) -> (shuffled: Vec<T>)
        ensures
            final(self).spec_seed() == old(self).spec_seed(),
            final(self).spec_history() == old(self).spec_history().push(vec@.len()),
            is_index_permutation(
                shuffle_outcome(old(self).spec_seed().spec_int_seed(), old(self).spec_history(), vec@.len()),
                vec@.len(),
            ) && shuffled@ == apply_permutation(
                vec@,
                shuffle_outcome(old(self).spec_seed().spec_int_seed(), old(self).spec_history(), vec@.len()),
            ),
            shuffled@.to_multiset() == vec@.to_multiset(),
    {
        let mut vec = vec;
        vec.shuffle(&mut self.rng);
        vec
    }
}

/// Relies on rand's `StdRng::seed_from_u64` (via `SeedableRng`), whose
/// documentation states that the resulting rng state is a deterministic
/// function of the given value.
#[verifier::external_body]
fn seed_std_rng(int_seed: u64) -> (rng: rand::rngs::StdRng) {
    rand::rngs::StdRng::seed_from_u64(int_seed)
}

} // verus!
