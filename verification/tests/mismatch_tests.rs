//! Mismatch rejection: unequal counts never build an aggregate and never
//! produce placements.

use linked_hash_set::LinkedHashSet;
use mini_rando::randomizer::filler::{shuffle_and_fill, FastFillerArgs};
use mini_rando::randomizer::item::{Item, LabelledItem};
use mini_rando::randomizer::location::{IsAccessible, LocId, Location};
use mini_rando::randomizer::seed::Seed;
use mini_rando::randomizer::shuffler::Shuffled;
use mini_rando::rng::GameRng;

fn free_location(id: LocId) -> Location {
    Location(id, IsAccessible(vec![]))
}

#[test]
fn shuffled_rejects_count_mismatch() {
    let locations = vec![free_location(LocId::Loc0), free_location(LocId::Loc1)];
    let prog_items = vec![LabelledItem::Progression(Item::Item0)];
    let junk_items = vec![];
    assert!(Shuffled::new(locations, prog_items, junk_items).is_none());
}

#[test]
fn shuffled_accepts_matching_counts() {
    let locations = vec![free_location(LocId::Loc0), free_location(LocId::Loc1)];
    let prog_items = vec![LabelledItem::Progression(Item::Item0)];
    let junk_items = vec![LabelledItem::Junk(Item::Item3)];
    let shuffled = Shuffled::new(locations, prog_items, junk_items).expect("counts match");
    let (locations, prog_items, junk_items) = shuffled.get();
    assert_eq!(locations.len(), 2);
    assert_eq!(prog_items.len(), 1);
    assert_eq!(junk_items.len(), 1);
}

#[test]
fn fast_filler_args_reject_count_mismatch() {
    let mut locations: LinkedHashSet<LocId> = LinkedHashSet::new();
    locations.insert(LocId::Loc2);
    locations.insert(LocId::Loc3);
    let items = vec![LabelledItem::Junk(Item::Item3)];
    assert!(FastFillerArgs::new(items, locations).is_none());
}

#[test]
fn fast_filler_args_accept_matching_counts() {
    let mut locations: LinkedHashSet<LocId> = LinkedHashSet::new();
    locations.insert(LocId::Loc2);
    let items = vec![LabelledItem::Junk(Item::Item3)];
    assert!(FastFillerArgs::new(items, locations).is_some());
}

#[test]
fn pipeline_rejects_count_mismatch() {
    let locations = vec![free_location(LocId::Loc0)];
    let prog_items = vec![LabelledItem::Progression(Item::Item0)];
    let junk_items = vec![LabelledItem::Junk(Item::Item3)];
    let mut rng = GameRng::new(Seed::generate_seed().expect("Seed failed to generate."));
    assert!(shuffle_and_fill(&mut rng, locations, prog_items, junk_items).is_none());
}
