//! The two filler passes.
//!
//! The progression filler places one progression item per step, always into a
//! location that is still reachable under the assumed inventory of the items
//! not yet placed. The fast filler then pairs the remaining, unconstrained
//! items with the remaining locations positionally.

use vstd::prelude::*;

use linked_hash_set::LinkedHashSet;

use crate::randomizer::item::LabelledItem;
use crate::randomizer::loc_set::{
    loc_set_elems, loc_set_insert, loc_set_len, loc_set_new, loc_set_remove, loc_set_to_vec,
};
use crate::randomizer::location::{LocId, Location};
use crate::randomizer::shuffler::{shuffle_world, shuffle_world_model, Shuffled};
use crate::rng::GameRng;

verus! {

/// A placement record: the item and the id of the location that holds it.
#[derive(Copy, Clone, Debug, PartialEq, Eq, Structural)]
pub struct FilledLocation(pub LabelledItem, pub LocId);

/// The ids of the given locations, in order.
pub open spec fn location_ids(locations: Seq<Location>) -> Seq<LocId> {
    locations.map_values(|loc: Location| loc.0)
}

/// The ids the given records place items into, in order.
pub open spec fn placed_ids(filled: Seq<FilledLocation>) -> Seq<LocId> {
    filled.map_values(|f: FilledLocation| f.1)
}

/// The locations whose accessibility rule holds for the assumed item set,
/// in their original order.
pub open spec fn accessible_locations(
    locations: Seq<Location>,
    assumed: Seq<LabelledItem>,
) -> Seq<Location> {
    locations.filter(|loc: Location| loc.1.spec_accessible(assumed))
}

/// The contents of an order-preserving id set built by inserting the given
/// ids left to right: a repeated id moves to the back.
pub open spec fn ordered_id_set(ids: Seq<LocId>) -> Seq<LocId>
    decreases ids.len(),
{
    if ids.len() == 0 {
        Seq::empty()
    } else {
        let prev = ordered_id_set(ids.drop_last());
        if prev.contains(ids.last()) {
            prev.remove_value(ids.last()).push(ids.last())
        } else {
            prev.push(ids.last())
        }
    }
}

/// What one run of the progression filler computes from the shuffled
/// progression items, the candidate locations, and the remaining-id set.
///
/// Each step takes the item at the tail of the pool, keeps only the
/// candidate locations reachable under the items still in the pool, and
/// places the item into the candidate at the tail; the placed location
/// leaves the remaining-id set. An empty candidate list while items remain
/// means the world ran out of reachable locations, and the whole run fails.
pub open spec fn progression_fill_model(
    prog_items: Seq<LabelledItem>,
    locations: Seq<Location>,
    remaining: Seq<LocId>,
) -> Option<(Seq<FilledLocation>, Seq<LocId>)>
    decreases prog_items.len(),
{
    if prog_items.len() == 0 {
        Some((Seq::empty(), remaining))
    } else {
        let item = prog_items.last();
        let rest = prog_items.drop_last();
        let candidates = accessible_locations(locations, rest);
        if candidates.len() == 0 {
            None
        } else {
            let chosen = candidates.last();
            match progression_fill_model(
                rest,
                candidates.drop_last(),
                remaining.remove_value(chosen.0),
            ) {
                None => None,
                Some((filled, rem)) => Some(
                    (seq![FilledLocation(item, chosen.0)] + filled, rem),
                ),
            }
        }
    }
}

/// The positional pairing of items with location ids.
pub open spec fn zip_fill(items: Seq<LabelledItem>, ids: Seq<LocId>) -> Seq<FilledLocation>
    recommends
        items.len() == ids.len(),
{
    Seq::new(items.len(), |i: int| FilledLocation(items[i], ids[i]))
}

/// What filling a shuffled world computes: the progression placements
/// followed by the junk pairing over the locations left.
pub open spec fn fill_model(
    locations: Seq<Location>,
    prog_items: Seq<LabelledItem>,
    junk_items: Seq<LabelledItem>,
) -> Option<Seq<FilledLocation>> {
    match progression_fill_model(prog_items, locations, ordered_id_set(location_ids(locations))) {
        None => None,
        Some((filled, remaining)) => if junk_items.len() == remaining.len() {
            Some(filled + zip_fill(junk_items, remaining))
        } else {
            None
        },
    }
}

/// What the full pipeline computes from the integer seed, the rng's shuffle
/// history, and the input collections: shuffle, then fill.
pub open spec fn pipeline_model(
    seed: u64,
    history: Seq<nat>,
    locations: Seq<Location>,
    prog_items: Seq<LabelledItem>,
    junk_items: Seq<LabelledItem>,
) -> Option<Seq<FilledLocation>> {
    if locations.len() != prog_items.len() + junk_items.len() {
        None
    } else {
        let (shuffled_locs, shuffled_prog, shuffled_junk) = shuffle_world_model(
            seed,
            history,
            locations,
            prog_items,
            junk_items,
        );
        fill_model(shuffled_locs, shuffled_prog, shuffled_junk)
    }
}

/// The validated arguments of the fast filler: equally many items and
/// remaining locations.
pub struct FastFillerArgs(Vec<LabelledItem>, LinkedHashSet<LocId>);

impl FastFillerArgs {
    /// The items to place.
    pub closed spec fn spec_items(self) -> Seq<LabelledItem> {
        self.0@
    }

    /// The ids of the locations to fill, in order.
    pub closed spec fn spec_locations(self) -> Seq<LocId> {
        loc_set_elems(self.1)
    }

    #[verifier::type_invariant]
    spec fn count_invariant(self) -> bool {
        self.0@.len() == loc_set_elems(self.1).len()
    }

    /// Accepts the pair exactly when there are as many items as locations; a
    /// count mismatch yields no arguments.
    pub fn new(items: Vec<LabelledItem>, locations: LinkedHashSet<LocId>) -> (r: Option<
        FastFillerArgs,
    >)
        ensures
            r is Some <==> items@.len() == loc_set_elems(locations).len(),
            r matches Some(args) ==> {
                &&& args.spec_items() == items@
                &&& args.spec_locations() == loc_set_elems(locations)
            },
    {
        if items.len() == loc_set_len(&locations) {
            Some(FastFillerArgs(items, locations))
        } else {
            None
        }
    }

    /// Hands the pair out; the counts still agree.
    pub fn get(self) -> (r: (Vec<LabelledItem>, LinkedHashSet<LocId>))
        ensures
            r.0@ == self.spec_items(),
            loc_set_elems(r.1) == self.spec_locations(),
            r.0@.len() == loc_set_elems(r.1).len(),
    {
        proof {
            use_type_invariant(&self);
        }
        let FastFillerArgs(items, locations) = self;
        (items, locations)
    }
}

/// Shuffles the world with the given rng and fills every location: the
/// placements are a function of the seed, the rng's call history, and the
/// inputs alone. `None` means a count mismatch or a world that ran out of
/// reachable locations.
pub fn shuffle_and_fill(
    rng: &mut GameRng,
    locations: Vec<Location>,
    prog_items: Vec<LabelledItem>,
    junk_items: Vec<LabelledItem>,
) -> (r: Option<Vec<FilledLocation>>)
    ensures
        final(rng).spec_seed() == old(rng).spec_seed(),
        final(rng).spec_history() == old(rng).spec_history().push(prog_items@.len()).push(
            locations@.len(),
        ).push(junk_items@.len()),
        r is Some <==> pipeline_model(
            old(rng).spec_seed().spec_int_seed(),
            old(rng).spec_history(),
            locations@,
            prog_items@,
            junk_items@,
        ) is Some,
        r matches Some(v) ==> pipeline_model(
            old(rng).spec_seed().spec_int_seed(),
            old(rng).spec_history(),
            locations@,
            prog_items@,
            junk_items@,
        ) == Some(v@),
        location_ids(locations@).no_duplicates() && locations@.len() == prog_items@.len()
            + junk_items@.len() ==> (r matches Some(v) ==> {
            &&& v@.len() == locations@.len()
            &&& placed_ids(v@).no_duplicates()
            &&& forall|id: LocId| #[trigger]
                placed_ids(v@).contains(id) <==> location_ids(locations@).contains(id)
        }),
{
    broadcast use vstd::seq_lib::group_to_multiset_ensures;

    let ghost in_locs = locations@;
    let ghost in_prog = prog_items@;
    let ghost in_junk = junk_items@;
    let ghost seed0 = rng.spec_seed().spec_int_seed();
    let ghost hist0 = rng.spec_history();
    let shuffled = match shuffle_world(rng, locations, prog_items, junk_items) {
        Some(s) => s,
        None => {
            return None;
        },
    };
    let result = fill_locations(shuffled);
    proof {
        if location_ids(in_locs).no_duplicates() && in_locs.len() == in_prog.len()
            + in_junk.len() {
            let (shuffled_locs, shuffled_prog, shuffled_junk) = shuffle_world_model(
                seed0,
                hist0,
                in_locs,
                in_prog,
                in_junk,
            );
            let locs_outcome = crate::rng::shuffle_outcome(
                seed0,
                hist0.push(in_prog.len()),
                in_locs.len(),
            );
            lemma_permuted_ids_distinct(in_locs, locs_outcome);
            assert(shuffled_locs.to_multiset().len() == in_locs.to_multiset().len());
            assert(shuffled_prog.to_multiset().len() == in_prog.to_multiset().len());
            assert(shuffled_junk.to_multiset().len() == in_junk.to_multiset().len());
            assert forall|loc: Location|
                shuffled_locs.contains(loc) <==> #[trigger] in_locs.contains(loc) by {
                assert(shuffled_locs.to_multiset().count(loc) == in_locs.to_multiset().count(loc));
            }
            lemma_same_locations_same_ids(shuffled_locs, in_locs);
            lemma_fill_count_preservation(shuffled_locs, shuffled_prog, shuffled_junk);
        }
    }
    result
}

/// Fills every location of a shuffled world: progression items first, the
/// junk pairing after.
pub fn fill_locations(shuffled: Shuffled) -> (r: Option<Vec<FilledLocation>>)
    ensures
        r is Some <==> fill_model(
            shuffled.spec_locations(),
            shuffled.spec_prog_items(),
            shuffled.spec_junk_items(),
        ) is Some,
        r matches Some(v) ==> fill_model(
            shuffled.spec_locations(),
            shuffled.spec_prog_items(),
            shuffled.spec_junk_items(),
        ) == Some(v@),
{
    let (locations, prog_items, other_items) = shuffled.get();

    let (mut filled_locs, remaining_locs) = match progression_filler(prog_items, locations) {
        Some(pair) => pair,
        None => {
            return None;
        },
    };

    let option_fast_filler_args = FastFillerArgs::new(other_items, remaining_locs);

    if let Some(fast_filler_args) = option_fast_filler_args {
        let mut fast_filled = fast_filler(fast_filler_args);
        filled_locs.append(&mut fast_filled);
        Some(filled_locs)
    } else {
        None
    }
}

/// Places every progression item into a location reachable under the items
/// not yet placed; returns the placements and the ids of the locations left
/// unfilled, in shuffle order.
#[verifier::loop_isolation(false)]
pub fn progression_filler(prog_items: Vec<LabelledItem>, locations: Vec<Location>) -> (r: Option<
    (Vec<FilledLocation>, LinkedHashSet<LocId>),
>)
    ensures
        r is Some <==> progression_fill_model(
            prog_items@,
            locations@,
            ordered_id_set(location_ids(locations@)),
        ) is Some,
        r matches Some(res) ==> progression_fill_model(
            prog_items@,
            locations@,
            ordered_id_set(location_ids(locations@)),
        ) == Some((res.0@, loc_set_elems(res.1))),
{
    let ghost orig_prog = prog_items@;
    let ghost orig_locs = locations@;
    let mut prog_items = prog_items;
    let mut locations = locations;

    let mut remaining: LinkedHashSet<LocId> = loc_set_new();
    let mut i: usize = 0;
    while i < locations.len()
        invariant
            locations@ == orig_locs,
            i <= orig_locs.len(),
            loc_set_elems(remaining) == ordered_id_set(location_ids(orig_locs.take(i as int))),
        decreases orig_locs.len() - i,
    {
        let id = locations[i].0;
        loc_set_insert(&mut remaining, id);
        proof {
            let ids_next = location_ids(orig_locs.take(i + 1));
            assert(ids_next.drop_last() =~= location_ids(orig_locs.take(i as int)));
            assert(ids_next.last() == id);
        }
        i = i + 1;
    }
    proof {
        assert(orig_locs.take(orig_locs.len() as int) =~= orig_locs);
    }

    let ghost orig_rem = ordered_id_set(location_ids(orig_locs));
    let mut filled_locations: Vec<FilledLocation> = Vec::new();
    let item_count = prog_items.len();
    let mut k: usize = 0;
    while k < item_count
        invariant
            prog_items@.len() + k == item_count,
            progression_fill_model(orig_prog, orig_locs, orig_rem) is Some
                <==> progression_fill_model(
                prog_items@,
                locations@,
                loc_set_elems(remaining),
            ) is Some,
            progression_fill_model(prog_items@, locations@, loc_set_elems(remaining)) matches Some(
                m,
            ) ==> progression_fill_model(orig_prog, orig_locs, orig_rem) == Some(
                (filled_locations@ + m.0, m.1),
            ),
        decreases item_count - k,
    {
        let ghost prog_before = prog_items@;
        let ghost locs_before = locations@;
        let ghost rem_before = loc_set_elems(remaining);

        let item = match prog_items.pop() {
            Some(item) => item,
            None => {
                return None;
            },
        };
        locations = retain_accessible(locations, &prog_items);
        let location = match locations.pop() {
            Some(loc) => loc,
            None => {
                proof {
                    assert(progression_fill_model(prog_before, locs_before, rem_before) is None);
                }
                return None;
            },
        };
        filled_locations.push(FilledLocation(item, location.0));
        loc_set_remove(&mut remaining, location.0);
        proof {
            let m_before = progression_fill_model(prog_before, locs_before, rem_before);
            let m_after = progression_fill_model(
                prog_items@,
                locations@,
                loc_set_elems(remaining),
            );
            assert(m_before == (match m_after {
                None => None,
                Some(m) => Some((seq![FilledLocation(item, location.0)] + m.0, m.1)),
            }));
            assert(m_after matches Some(m) ==> filled_locations@.drop_last() + (seq![
                FilledLocation(item, location.0),
            ] + m.0) =~= filled_locations@ + m.0);
        }
        k = k + 1;
    }
    proof {
        let m_final = progression_fill_model(prog_items@, locations@, loc_set_elems(remaining));
        assert(m_final == Some((Seq::<FilledLocation>::empty(), loc_set_elems(remaining))));
        assert(filled_locations@ + Seq::<FilledLocation>::empty() =~= filled_locations@);
    }
    Some((filled_locations, remaining))
}

/// Filtering keeps a pushed location exactly when its rule holds for the
/// assumed item set.
proof fn lemma_accessible_locations_push(
    locations: Seq<Location>,
    loc: Location,
    assumed: Seq<LabelledItem>,
)
    ensures
        accessible_locations(locations.push(loc), assumed) == (if loc.1.spec_accessible(assumed) {
            accessible_locations(locations, assumed).push(loc)
        } else {
            accessible_locations(locations, assumed)
        }),
{
    reveal(Seq::filter);
    assert(locations.push(loc).drop_last() =~= locations);
    assert(locations.push(loc).last() == loc);
}

/// The locations whose rule holds for the assumed item set, in order.
#[verifier::loop_isolation(false)]
fn retain_accessible(locations: Vec<Location>, assumed: &Vec<LabelledItem>) -> (r: Vec<Location>)
    ensures
        r@ == accessible_locations(locations@, assumed@),
{
    let ghost orig = locations@;
    let mut locations = locations;
    let mut retained: Vec<Location> = Vec::new();
    let ghost consumed: int = 0;
    while locations.len() > 0
        invariant
            0 <= consumed <= orig.len(),
            locations@ == orig.skip(consumed),
            retained@ == accessible_locations(orig.take(consumed), assumed@),
        decreases locations@.len(),
    {
        let loc = locations.remove(0);
        let ghost taken = loc;
        let keep = loc.1.is_accessible(assumed.as_slice());
        if keep {
            retained.push(loc);
        }
        proof {
            consumed = consumed + 1;
            assert(orig.take(consumed) =~= orig.take(consumed - 1).push(taken));
            lemma_accessible_locations_push(orig.take(consumed - 1), taken, assumed@);
            assert(locations@ =~= orig.skip(consumed));
        }
    }
    proof {
        assert(orig.take(consumed) =~= orig);
    }
    retained
}

/// Every location the accessibility filter keeps comes from the input and
/// satisfies the rule.
proof fn lemma_accessible_locations_elems(locations: Seq<Location>, assumed: Seq<LabelledItem>)
    ensures
        forall|i: int| 0 <= i < accessible_locations(locations, assumed).len() ==> {
            &&& locations.contains(#[trigger] accessible_locations(locations, assumed)[i])
            &&& accessible_locations(locations, assumed)[i].1.spec_accessible(assumed)
        },
    decreases locations.len(),
{
    reveal(Seq::filter);
    if locations.len() > 0 {
        let prefix = locations.drop_last();
        lemma_accessible_locations_elems(prefix, assumed);
        let kept = accessible_locations(locations, assumed);
        let kept_prefix = accessible_locations(prefix, assumed);
        assert forall|i: int| 0 <= i < kept.len() implies locations.contains(kept[i])
            && kept[i].1.spec_accessible(assumed) by {
            if i < kept_prefix.len() {
                assert(kept[i] == kept_prefix[i]);
                let j = choose|j: int| 0 <= j < prefix.len() && prefix[j] == kept_prefix[i];
                assert(locations[j] == kept[i]);
            } else {
                assert(kept[i] == locations.last());
                assert(locations[locations.len() - 1] == kept[i]);
            }
        }
    }
}

/// The accessibility filter keeps location ids distinct when the input's ids
/// are distinct.
proof fn lemma_accessible_locations_ids_distinct(
    locations: Seq<Location>,
    assumed: Seq<LabelledItem>,
)
    requires
        location_ids(locations).no_duplicates(),
    ensures
        location_ids(accessible_locations(locations, assumed)).no_duplicates(),
    decreases locations.len(),
{
    reveal(Seq::filter);
    if locations.len() > 0 {
        let prefix = locations.drop_last();
        assert(location_ids(prefix) =~= location_ids(locations).drop_last());
        lemma_accessible_locations_ids_distinct(prefix, assumed);
        lemma_accessible_locations_elems(prefix, assumed);
        let kept = accessible_locations(locations, assumed);
        let kept_prefix = accessible_locations(prefix, assumed);
        if locations.last().1.spec_accessible(assumed) {
            assert(kept == kept_prefix.push(locations.last()));
            assert forall|i: int, j: int|
                0 <= i < j < location_ids(kept).len() implies location_ids(kept)[i]
                != location_ids(kept)[j] by {
                if j < kept_prefix.len() {
                    assert(location_ids(kept_prefix)[i] != location_ids(kept_prefix)[j]);
                } else {
                    let k = choose|k: int| 0 <= k < prefix.len() && prefix[k] == kept_prefix[i];
                    assert(location_ids(locations)[k] == kept_prefix[i].0);
                    assert(location_ids(locations)[locations.len() - 1] == locations.last().0);
                }
            }
        } else {
            assert(kept == kept_prefix);
        }
    }
}

/// Removing a value from a duplicate-free sequence removes exactly its one
/// occurrence.
proof fn lemma_remove_value_distinct(ids: Seq<LocId>, id: LocId)
    requires
        ids.no_duplicates(),
        ids.contains(id),
    ensures
        ids.remove_value(id).no_duplicates(),
        ids.remove_value(id).len() == ids.len() - 1,
        forall|other: LocId| #[trigger] ids.remove_value(id).contains(other) <==> ids.contains(
            other,
        ) && other != id,
{
    ids.index_of_first_ensures(id);
    let i = ids.index_of_first(id)->0;
    let removed = ids.remove_value(id);
    ids.remove_ensures(i);
    assert forall|other: LocId| #[trigger] removed.contains(other) implies ids.contains(other)
        && other != id by {
        let j = choose|j: int| 0 <= j < removed.len() && removed[j] == other;
        if j < i {
            assert(ids[j] == other);
        } else {
            assert(ids[j + 1] == other);
        }
    }
    assert forall|other: LocId| ids.contains(other) && other != id implies #[trigger] removed
        .contains(other) by {
        let k = choose|k: int| 0 <= k < ids.len() && ids[k] == other;
        if k < i {
            assert(removed[k] == other);
        } else {
            assert(k != i);
            assert(removed[k - 1] == other);
        }
    }
    assert forall|p: int, q: int| 0 <= p < q < removed.len() implies removed[p] != removed[q] by {
        let orig_p: int = if p < i {
            p
        } else {
            p + 1
        };
        let orig_q: int = if q < i {
            q
        } else {
            q + 1
        };
        assert(removed[p] == ids[orig_p]);
        assert(removed[q] == ids[orig_q]);
    }
}

/// Inserting distinct ids in order builds exactly that id sequence.
proof fn lemma_ordered_id_set_distinct(ids: Seq<LocId>)
    requires
        ids.no_duplicates(),
    ensures
        ordered_id_set(ids) == ids,
    decreases ids.len(),
{
    if ids.len() > 0 {
        let prefix = ids.drop_last();
        lemma_ordered_id_set_distinct(prefix);
        assert(!prefix.contains(ids.last()));
        assert(prefix.push(ids.last()) =~= ids);
    }
}

/// Soundness of progression placement: a successful run places the items in
/// pop order, each into a location of the input whose accessibility rule
/// held, at the moment of placement, against exactly the items not yet
/// placed then.
pub proof fn lemma_progression_fill_sound(
    prog_items: Seq<LabelledItem>,
    locations: Seq<Location>,
    remaining: Seq<LocId>,
)
    requires
        progression_fill_model(prog_items, locations, remaining) is Some,
    ensures
        progression_fill_model(prog_items, locations, remaining) matches Some(res) ==> {
            &&& res.0.len() == prog_items.len()
            &&& forall|i: int|
                #![auto]
                0 <= i < res.0.len() ==> res.0[i].0 == prog_items[prog_items.len() - 1 - i]
            &&& forall|i: int|
                #![trigger res.0[i]]
                0 <= i < res.0.len() ==> exists|loc: Location|
                    #![auto]
                    {
                        &&& locations.contains(loc)
                        &&& loc.0 == res.0[i].1
                        &&& loc.1.spec_accessible(prog_items.take(prog_items.len() - 1 - i))
                    }
        },
    decreases prog_items.len(),
{
    if prog_items.len() > 0 {
        let item = prog_items.last();
        let rest = prog_items.drop_last();
        let cands = accessible_locations(locations, rest);
        let chosen = cands.last();
        let cands2 = cands.drop_last();
        let rem2 = remaining.remove_value(chosen.0);
        lemma_accessible_locations_elems(locations, rest);
        lemma_progression_fill_sound(rest, cands2, rem2);
        let inner = progression_fill_model(rest, cands2, rem2)->0;
        let res = progression_fill_model(prog_items, locations, remaining)->0;
        assert(res.0 == seq![FilledLocation(item, chosen.0)] + inner.0);
        assert(rest =~= prog_items.take(prog_items.len() - 1));
        assert forall|i: int| #![auto] 0 <= i < res.0.len() implies res.0[i].0 == prog_items[
            prog_items.len() - 1 - i
        ] by {
            if i > 0 {
                assert(res.0[i] == inner.0[i - 1]);
                assert(inner.0[i - 1].0 == rest[rest.len() - 1 - (i - 1)]);
            }
        }
        assert forall|i: int| #![trigger res.0[i]] 0 <= i < res.0.len() implies exists|loc: Location|
            #![auto]
            {
                &&& locations.contains(loc)
                &&& loc.0 == res.0[i].1
                &&& loc.1.spec_accessible(prog_items.take(prog_items.len() - 1 - i))
            } by {
            if i == 0 {
                assert(locations.contains(chosen) && chosen.0 == res.0[0].1
                    && chosen.1.spec_accessible(prog_items.take(prog_items.len() - 1)));
            } else {
                assert(res.0[i] == inner.0[i - 1]);
                let witness = choose|loc: Location|
                    #![auto]
                    {
                        &&& cands2.contains(loc)
                        &&& loc.0 == inner.0[i - 1].1
                        &&& loc.1.spec_accessible(rest.take(rest.len() - 1 - (i - 1)))
                    };
                let k = choose|k: int| 0 <= k < cands2.len() && cands2[k] == witness;
                assert(cands[k] == witness);
                assert(locations.contains(witness));
                assert(rest.take(rest.len() - 1 - (i - 1)) =~= prog_items.take(
                    prog_items.len() - 1 - i,
                ));
            }
        }
    }
}

/// What a successful progression fill does to the remaining-id set: each
/// placement takes one distinct id out of it, and the ids left are exactly
/// those not placed.
pub proof fn lemma_progression_fill_preserves(
    prog_items: Seq<LabelledItem>,
    locations: Seq<Location>,
    remaining: Seq<LocId>,
)
    requires
        remaining.no_duplicates(),
        location_ids(locations).no_duplicates(),
        forall|i: int| 0 <= i < locations.len() ==> remaining.contains(#[trigger] locations[i].0),
        progression_fill_model(prog_items, locations, remaining) is Some,
    ensures
        progression_fill_model(prog_items, locations, remaining) matches Some(res) ==> {
            &&& res.0.len() == prog_items.len()
            &&& placed_ids(res.0).no_duplicates()
            &&& forall|id: LocId| #[trigger]
                placed_ids(res.0).contains(id) ==> remaining.contains(id)
            &&& res.1.no_duplicates()
            &&& forall|id: LocId| #[trigger]
                res.1.contains(id) <==> remaining.contains(id) && !placed_ids(res.0).contains(id)
            &&& res.1.len() + res.0.len() == remaining.len()
        },
    decreases prog_items.len(),
{
    if prog_items.len() == 0 {
        let res = progression_fill_model(prog_items, locations, remaining)->0;
        assert(placed_ids(res.0) =~= Seq::<LocId>::empty());
    } else {
        let item = prog_items.last();
        let rest = prog_items.drop_last();
        let cands = accessible_locations(locations, rest);
        let chosen = cands.last();
        let cands2 = cands.drop_last();
        let rem2 = remaining.remove_value(chosen.0);
        lemma_accessible_locations_elems(locations, rest);
        lemma_accessible_locations_ids_distinct(locations, rest);
        assert(remaining.contains(chosen.0)) by {
            let j = choose|j: int| 0 <= j < locations.len() && locations[j] == chosen;
            assert(remaining.contains(locations[j].0));
        }
        lemma_remove_value_distinct(remaining, chosen.0);
        assert(location_ids(cands2) =~= location_ids(cands).drop_last());
        assert(location_ids(cands2).no_duplicates()) by {
            assert forall|p: int, q: int|
                0 <= p < q < location_ids(cands2).len() implies location_ids(cands2)[p]
                != location_ids(cands2)[q] by {
                assert(location_ids(cands)[p] != location_ids(cands)[q]);
            }
        }
        assert forall|i: int| 0 <= i < cands2.len() implies rem2.contains(
            #[trigger] cands2[i].0,
        ) by {
            assert(cands2[i] == cands[i]);
            assert(locations.contains(cands[i]));
            let j = choose|j: int| 0 <= j < locations.len() && locations[j] == cands[i];
            assert(remaining.contains(locations[j].0));
            assert(location_ids(cands)[i] != location_ids(cands)[cands.len() - 1]);
            assert(cands[i].0 != chosen.0);
        }
        lemma_progression_fill_preserves(rest, cands2, rem2);
        let inner = progression_fill_model(rest, cands2, rem2)->0;
        let res = progression_fill_model(prog_items, locations, remaining)->0;
        assert(res.0 == seq![FilledLocation(item, chosen.0)] + inner.0);
        assert(res.1 == inner.1);
        assert(placed_ids(res.0) =~= seq![chosen.0] + placed_ids(inner.0));
        assert(placed_ids(res.0).no_duplicates()) by {
            assert forall|p: int, q: int|
                0 <= p < q < placed_ids(res.0).len() implies placed_ids(res.0)[p] != placed_ids(
                res.0,
            )[q] by {
                if p == 0 {
                    assert(placed_ids(res.0)[q] == placed_ids(inner.0)[q - 1]);
                    assert(placed_ids(inner.0).contains(placed_ids(inner.0)[q - 1]));
                    assert(rem2.contains(placed_ids(inner.0)[q - 1]));
                } else {
                    assert(placed_ids(res.0)[p] == placed_ids(inner.0)[p - 1]);
                    assert(placed_ids(res.0)[q] == placed_ids(inner.0)[q - 1]);
                }
            }
        }
        assert forall|id: LocId| #[trigger]
            placed_ids(res.0).contains(id) implies remaining.contains(id) by {
            let j = choose|j: int| 0 <= j < placed_ids(res.0).len() && placed_ids(res.0)[j] == id;
            if j > 0 {
                assert(placed_ids(inner.0)[j - 1] == id);
                assert(placed_ids(inner.0).contains(id));
                assert(rem2.contains(id));
            }
        }
        assert forall|id: LocId| #[trigger]
            res.1.contains(id) <==> remaining.contains(id) && !placed_ids(res.0).contains(id) by {
            assert(placed_ids(res.0)[0] == chosen.0);
            if remaining.contains(id) && !placed_ids(res.0).contains(id) {
                assert(!placed_ids(inner.0).contains(id)) by {
                    if placed_ids(inner.0).contains(id) {
                        let j = choose|j: int|
                            0 <= j < placed_ids(inner.0).len() && placed_ids(inner.0)[j] == id;
                        assert(placed_ids(res.0)[j + 1] == id);
                    }
                }
                assert(id != chosen.0);
            }
            if res.1.contains(id) {
                assert(rem2.contains(id) && !placed_ids(inner.0).contains(id));
                assert(!placed_ids(res.0).contains(id)) by {
                    if placed_ids(res.0).contains(id) {
                        let j = choose|j: int|
                            0 <= j < placed_ids(res.0).len() && placed_ids(res.0)[j] == id;
                        assert(j > 0);
                        assert(placed_ids(inner.0)[j - 1] == id);
                    }
                }
            }
        }
    }
}

/// Count preservation at the fill stage: filling a world whose location ids
/// are distinct and whose counts match fills every location exactly once,
/// and succeeds exactly when the progression pass does.
pub proof fn lemma_fill_count_preservation(
    locations: Seq<Location>,
    prog_items: Seq<LabelledItem>,
    junk_items: Seq<LabelledItem>,
)
    requires
        location_ids(locations).no_duplicates(),
        locations.len() == prog_items.len() + junk_items.len(),
    ensures
        fill_model(locations, prog_items, junk_items) is Some <==> progression_fill_model(
            prog_items,
            locations,
            ordered_id_set(location_ids(locations)),
        ) is Some,
        fill_model(locations, prog_items, junk_items) matches Some(filled) ==> {
            &&& filled.len() == locations.len()
            &&& placed_ids(filled).no_duplicates()
            &&& forall|id: LocId| #[trigger]
                placed_ids(filled).contains(id) <==> location_ids(locations).contains(id)
        },
{
    let ids = location_ids(locations);
    lemma_ordered_id_set_distinct(ids);
    assert forall|i: int| 0 <= i < locations.len() implies ids.contains(
        #[trigger] locations[i].0,
    ) by {
        assert(ids[i] == locations[i].0);
    }
    if progression_fill_model(prog_items, locations, ids) is Some {
        lemma_progression_fill_preserves(prog_items, locations, ids);
        let res = progression_fill_model(prog_items, locations, ids)->0;
        let prog_part = res.0;
        let junk_ids = res.1;
        assert(junk_ids.len() == junk_items.len());
        let filled = fill_model(locations, prog_items, junk_items)->0;
        assert(filled == prog_part + zip_fill(junk_items, junk_ids));
        assert(placed_ids(filled) =~= placed_ids(prog_part) + junk_ids);
        assert(placed_ids(filled).no_duplicates()) by {
            let all = placed_ids(prog_part) + junk_ids;
            let n = placed_ids(prog_part).len();
            assert forall|p: int, q: int| 0 <= p < q < all.len() implies all[p] != all[q] by {
                if p < n && q >= n {
                    assert(placed_ids(prog_part).contains(all[p]));
                    assert(junk_ids.contains(all[q]));
                } else if p >= n {
                    assert(junk_ids.contains(all[p]) && junk_ids.contains(all[q]));
                    assert(junk_ids[p - n] != junk_ids[q - n]);
                }
            }
        }
        assert forall|id: LocId| #[trigger]
            placed_ids(filled).contains(id) <==> ids.contains(id) by {
            if placed_ids(filled).contains(id) {
                let j = choose|j: int|
                    0 <= j < placed_ids(filled).len() && placed_ids(filled)[j] == id;
                if j < placed_ids(prog_part).len() {
                    assert(placed_ids(prog_part).contains(id));
                } else {
                    assert(junk_ids.contains(id));
                }
            }
            if ids.contains(id) {
                if placed_ids(prog_part).contains(id) {
                    let j = choose|j: int|
                        0 <= j < placed_ids(prog_part).len() && placed_ids(prog_part)[j] == id;
                    assert(placed_ids(filled)[j] == id);
                } else {
                    assert(junk_ids.contains(id));
                    let j = choose|j: int| 0 <= j < junk_ids.len() && junk_ids[j] == id;
                    assert(placed_ids(filled)[placed_ids(prog_part).len() + j] == id);
                }
            }
        }
    }
}

/// Soundness in the fill output: the first records of a successful fill are
/// the progression placements, in pop order, and each went to a location
/// whose rule held, at that moment, against exactly the items not yet placed
/// then.
pub proof fn lemma_fill_progression_sound(
    locations: Seq<Location>,
    prog_items: Seq<LabelledItem>,
    junk_items: Seq<LabelledItem>,
)
    requires
        fill_model(locations, prog_items, junk_items) is Some,
    ensures
        fill_model(locations, prog_items, junk_items) matches Some(filled) ==> {
            &&& filled.len() >= prog_items.len()
            &&& forall|i: int|
                #![trigger filled[i]]
                0 <= i < prog_items.len() ==> {
                    &&& filled[i].0 == prog_items[prog_items.len() - 1 - i]
                    &&& exists|loc: Location|
                        #![auto]
                        {
                            &&& locations.contains(loc)
                            &&& loc.0 == filled[i].1
                            &&& loc.1.spec_accessible(
                                prog_items.take(prog_items.len() - 1 - i),
                            )
                        }
                }
        },
{
    let remaining = ordered_id_set(location_ids(locations));
    lemma_progression_fill_sound(prog_items, locations, remaining);
    let res = progression_fill_model(prog_items, locations, remaining)->0;
    let filled = fill_model(locations, prog_items, junk_items)->0;
    assert(filled == res.0 + zip_fill(junk_items, res.1));
    assert forall|i: int| #![trigger filled[i]] 0 <= i < prog_items.len() implies {
        &&& filled[i].0 == prog_items[prog_items.len() - 1 - i]
        &&& exists|loc: Location|
            #![auto]
            {
                &&& locations.contains(loc)
                &&& loc.0 == filled[i].1
                &&& loc.1.spec_accessible(prog_items.take(prog_items.len() - 1 - i))
            }
    } by {
        assert(filled[i] == res.0[i]);
    }
}

/// Determinism: the placements of a full run are a function of the integer
/// seed, the rng's call history, and the input collections alone, so two
/// runs from rngs in the same state, on the same inputs, agree.
pub proof fn lemma_pipeline_deterministic(
    first: GameRng,
    second: GameRng,
    locations: Seq<Location>,
    prog_items: Seq<LabelledItem>,
    junk_items: Seq<LabelledItem>,
)
    requires
        first.spec_seed().spec_int_seed() == second.spec_seed().spec_int_seed(),
        first.spec_history() == second.spec_history(),
    ensures
        pipeline_model(
            first.spec_seed().spec_int_seed(),
            first.spec_history(),
            locations,
            prog_items,
            junk_items,
        ) == pipeline_model(
            second.spec_seed().spec_int_seed(),
            second.spec_history(),
            locations,
            prog_items,
            junk_items,
        ),
{
}

/// Junk pairing: pairing equally many items with distinct remaining ids
/// yields one record per pair — the i-th item at the i-th id — and covers
/// each remaining id exactly once.
pub proof fn lemma_fast_fill_pairing(items: Seq<LabelledItem>, ids: Seq<LocId>)
    requires
        items.len() == ids.len(),
        ids.no_duplicates(),
    ensures
        zip_fill(items, ids).len() == items.len(),
        placed_ids(zip_fill(items, ids)) == ids,
        placed_ids(zip_fill(items, ids)).no_duplicates(),
        forall|i: int|
            #![trigger zip_fill(items, ids)[i]]
            0 <= i < items.len() ==> zip_fill(items, ids)[i] == FilledLocation(items[i], ids[i]),
{
    assert(placed_ids(zip_fill(items, ids)) =~= ids);
}

/// A permutation keeps location ids distinct.
proof fn lemma_permuted_ids_distinct(locations: Seq<Location>, p: Seq<int>)
    requires
        crate::rng::is_index_permutation(p, locations.len()),
        location_ids(locations).no_duplicates(),
    ensures
        location_ids(crate::rng::apply_permutation(locations, p)).no_duplicates(),
{
    let permuted = crate::rng::apply_permutation(locations, p);
    assert forall|i: int, j: int|
        0 <= i < j < location_ids(permuted).len() implies location_ids(permuted)[i]
        != location_ids(permuted)[j] by {
        assert(permuted[i] == locations[p[i]]);
        assert(permuted[j] == locations[p[j]]);
        if p[i] < p[j] {
            assert(location_ids(locations)[p[i]] != location_ids(locations)[p[j]]);
        } else {
            assert(location_ids(locations)[p[j]] != location_ids(locations)[p[i]]);
        }
    }
}

/// Two location sequences with the same elements have the same ids.
proof fn lemma_same_locations_same_ids(first: Seq<Location>, second: Seq<Location>)
    requires
        forall|loc: Location| first.contains(loc) <==> #[trigger] second.contains(loc),
    ensures
        forall|id: LocId| #[trigger]
            location_ids(first).contains(id) <==> location_ids(second).contains(id),
{
    assert forall|id: LocId| #[trigger]
        location_ids(first).contains(id) <==> location_ids(second).contains(id) by {
        if location_ids(first).contains(id) {
            let i = choose|i: int| 0 <= i < first.len() && location_ids(first)[i] == id;
            assert(first.contains(first[i]));
            assert(second.contains(first[i]));
            let j = choose|j: int| 0 <= j < second.len() && second[j] == first[i];
            assert(location_ids(second)[j] == id);
        }
        if location_ids(second).contains(id) {
            let i = choose|i: int| 0 <= i < second.len() && location_ids(second)[i] == id;
            assert(second.contains(second[i]));
            assert(first.contains(second[i]));
            let j = choose|j: int| 0 <= j < first.len() && first[j] == second[i];
            assert(location_ids(first)[j] == id);
        }
    }
}

/// Pairs the items with the remaining locations positionally: the i-th item
/// goes to the i-th remaining location.
pub fn fast_filler(args: FastFillerArgs) -> (r: Vec<FilledLocation>)
    ensures
        r@ == zip_fill(args.spec_items(), args.spec_locations()),
{
    let ghost spec_items = args.spec_items();
    let ghost spec_locs = args.spec_locations();
    let (items, locations) = args.get();
    let loc_vec = loc_set_to_vec(locations);
    let mut filled: Vec<FilledLocation> = Vec::new();
    let mut i: usize = 0;
    while i < items.len()
        invariant
            items@ == spec_items,
            loc_vec@ == spec_locs,
            items@.len() == loc_vec@.len(),
            i <= items@.len(),
            filled@.len() == i,
            forall|j: int| 0 <= j < i ==> filled@[j] == FilledLocation(items@[j], loc_vec@[j]),
        decreases items@.len() - i,
    {
        filled.push(FilledLocation(items[i], loc_vec[i]));
        i = i + 1;
    }
    proof {
        assert(filled@ =~= zip_fill(spec_items, spec_locs));
    }
    filled
}

} // verus!
