//! The progression filler on its own: tail pops, accessibility tightening,
//! and the out-of-locations failure.

use mini_rando::randomizer::filler::{fill_locations, progression_filler, FilledLocation};
use mini_rando::randomizer::item::{Item, LabelledItem};
use mini_rando::randomizer::location::{IsAccessible, LocId, Location};
use mini_rando::randomizer::shuffler::Shuffled;

#[test]
fn progression_filler_pops_items_and_locations_from_the_tail() {
    let locations = vec![
        Location(LocId::Loc0, IsAccessible(vec![])),
        Location(LocId::Loc1, IsAccessible(vec![])),
        Location(LocId::Loc2, IsAccessible(vec![])),
    ];
    let prog_items = vec![
        LabelledItem::Progression(Item::Item0),
        LabelledItem::Progression(Item::Item1),
        LabelledItem::Progression(Item::Item2),
    ];
    let (filled, remaining) = progression_filler(prog_items, locations).expect("world is fillable");
    assert_eq!(
        filled,
        vec![
            FilledLocation(LabelledItem::Progression(Item::Item2), LocId::Loc2),
            FilledLocation(LabelledItem::Progression(Item::Item1), LocId::Loc1),
            FilledLocation(LabelledItem::Progression(Item::Item0), LocId::Loc0),
        ]
    );
    assert!(remaining.is_empty());
}

#[test]
fn progression_filler_skips_locations_that_tighten_shut() {
    let locations = vec![
        Location(
            LocId::Loc0,
            IsAccessible(vec![LabelledItem::Progression(Item::Item0)]),
        ),
        Location(LocId::Loc1, IsAccessible(vec![])),
        Location(LocId::Loc2, IsAccessible(vec![])),
    ];
    let prog_items = vec![
        LabelledItem::Progression(Item::Item0),
        LabelledItem::Progression(Item::Item1),
    ];
    let (filled, remaining) = progression_filler(prog_items, locations).expect("world is fillable");
    assert_eq!(
        filled,
        vec![
            FilledLocation(LabelledItem::Progression(Item::Item1), LocId::Loc2),
            FilledLocation(LabelledItem::Progression(Item::Item0), LocId::Loc1),
        ]
    );
    let left: Vec<LocId> = remaining.into_iter().collect();
    assert_eq!(left, vec![LocId::Loc0]);
}

#[test]
fn progression_filler_fails_when_no_location_is_reachable() {
    let locations = vec![Location(
        LocId::Loc0,
        IsAccessible(vec![LabelledItem::Progression(Item::Item0)]),
    )];
    let prog_items = vec![LabelledItem::Progression(Item::Item0)];
    assert!(progression_filler(prog_items, locations).is_none());
}

#[test]
fn fill_locations_appends_the_junk_pairing() {
    let locations = vec![
        Location(LocId::Loc0, IsAccessible(vec![])),
        Location(LocId::Loc1, IsAccessible(vec![])),
        Location(LocId::Loc2, IsAccessible(vec![])),
    ];
    let prog_items = vec![LabelledItem::Progression(Item::Item0)];
    let junk_items = vec![
        LabelledItem::Junk(Item::Item3),
        LabelledItem::Nice(Item::Item2),
    ];
    let shuffled = Shuffled::new(locations, prog_items, junk_items).expect("counts match");
    let filled = fill_locations(shuffled).expect("world is fillable");
    assert_eq!(
        filled,
        vec![
            FilledLocation(LabelledItem::Progression(Item::Item0), LocId::Loc2),
            FilledLocation(LabelledItem::Junk(Item::Item3), LocId::Loc0),
            FilledLocation(LabelledItem::Nice(Item::Item2), LocId::Loc1),
        ]
    );
}
