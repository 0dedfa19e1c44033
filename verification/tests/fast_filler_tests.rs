//! The fast filler: positional pairing over the remaining locations, in
//! their insertion order.

use linked_hash_set::LinkedHashSet;
use mini_rando::randomizer::filler::{fast_filler, FastFillerArgs, FilledLocation};
use mini_rando::randomizer::item::{Item, LabelledItem};
use mini_rando::randomizer::location::LocId;

fn remaining_locations() -> LinkedHashSet<LocId> {
    let mut locations: LinkedHashSet<LocId> = LinkedHashSet::new();
    locations.insert(LocId::Loc3);
    locations.insert(LocId::Loc4);
    locations.insert(LocId::Loc5);
    locations
}

#[test]
fn fast_filler_pairs_positionally() {
    let items = vec![
        LabelledItem::Junk(Item::Item0),
        LabelledItem::Nice(Item::Item1),
        LabelledItem::Junk(Item::Item2),
    ];
    let args = FastFillerArgs::new(items, remaining_locations()).expect("counts match");
    let filled = fast_filler(args);
    assert_eq!(
        filled,
        vec![
            FilledLocation(LabelledItem::Junk(Item::Item0), LocId::Loc3),
            FilledLocation(LabelledItem::Nice(Item::Item1), LocId::Loc4),
            FilledLocation(LabelledItem::Junk(Item::Item2), LocId::Loc5),
        ]
    );
}

#[test]
fn fast_filler_succeeds_for_every_junk_permutation() {
    let junk = [
        LabelledItem::Junk(Item::Item0),
        LabelledItem::Junk(Item::Item1),
        LabelledItem::Junk(Item::Item3),
    ];
    let orders = [
        [0, 1, 2],
        [0, 2, 1],
        [1, 0, 2],
        [1, 2, 0],
        [2, 0, 1],
        [2, 1, 0],
    ];
    for order in orders.iter() {
        let items: Vec<LabelledItem> = order.iter().map(|&i| junk[i]).collect();
        let args =
            FastFillerArgs::new(items.clone(), remaining_locations()).expect("counts match");
        let filled = fast_filler(args);
        assert_eq!(filled.len(), 3);
        let ids: Vec<LocId> = filled.iter().map(|FilledLocation(_, id)| *id).collect();
        assert_eq!(ids, vec![LocId::Loc3, LocId::Loc4, LocId::Loc5]);
        for (i, FilledLocation(item, _)) in filled.iter().enumerate() {
            assert_eq!(*item, items[i]);
        }
    }
}

#[test]
fn reinserting_a_location_moves_it_to_the_back() {
    let mut locations: LinkedHashSet<LocId> = LinkedHashSet::new();
    locations.insert(LocId::Loc0);
    locations.insert(LocId::Loc1);
    locations.insert(LocId::Loc0);
    let items = vec![
        LabelledItem::Junk(Item::Item0),
        LabelledItem::Junk(Item::Item1),
    ];
    let args = FastFillerArgs::new(items, locations).expect("counts match");
    let filled = fast_filler(args);
    assert_eq!(
        filled,
        vec![
            FilledLocation(LabelledItem::Junk(Item::Item0), LocId::Loc1),
            FilledLocation(LabelledItem::Junk(Item::Item1), LocId::Loc0),
        ]
    );
}
