//! The end-to-end placement scenario: six locations, three progression
//! items, three junk items, across freshly generated seeds.

use mini_rando::randomizer::filler::{shuffle_and_fill, FilledLocation};
use mini_rando::randomizer::item::{Item, LabelledItem};
use mini_rando::randomizer::location::{IsAccessible, LocId, Location};
use mini_rando::randomizer::seed::Seed;
use mini_rando::rng::GameRng;

fn scenario_locations() -> Vec<Location> {
    vec![
        Location(
            LocId::Loc0,
            IsAccessible(vec![LabelledItem::Progression(Item::Item0)]),
        ),
        Location(
            LocId::Loc1,
            IsAccessible(vec![
                LabelledItem::Progression(Item::Item0),
                LabelledItem::Progression(Item::Item1),
            ]),
        ),
        Location(LocId::Loc2, IsAccessible(vec![])),
        Location(LocId::Loc3, IsAccessible(vec![])),
        Location(LocId::Loc4, IsAccessible(vec![])),
        Location(LocId::Loc5, IsAccessible(vec![])),
    ]
}

#[test]
fn filler_test() {
    for _ in 0..10 {
        let locations: Vec<Location> = scenario_locations();

        let prog_items: Vec<LabelledItem> = vec![
            LabelledItem::Progression(Item::Item0),
            LabelledItem::Progression(Item::Item1),
            LabelledItem::Progression(Item::Item2),
        ];

        let junk_items: Vec<LabelledItem> = vec![
            LabelledItem::Junk(Item::Item3),
            LabelledItem::Junk(Item::Item3),
            LabelledItem::Junk(Item::Item3),
        ];

        let mut rng: GameRng =
            GameRng::new(Seed::generate_seed().expect("Seed failed to generate."));

        let filled_locations = shuffle_and_fill(&mut rng, locations, prog_items, junk_items)
            .expect("Number of locations does not match total number of items.");

        assert_eq!(filled_locations.len(), 6);

        println!("{:?}", filled_locations);

        // check that items were not placed in certain locations
        assert!(!filled_locations.iter().any(|filled_loc| filled_loc
            == &FilledLocation(LabelledItem::Progression(Item::Item0), LocId::Loc0)
            || filled_loc == &FilledLocation(LabelledItem::Progression(Item::Item0), LocId::Loc1)
            || filled_loc
                == &FilledLocation(LabelledItem::Progression(Item::Item1), LocId::Loc1)));
    }
}

#[test]
fn filler_covers_every_location_exactly_once() {
    for _ in 0..10 {
        let locations = scenario_locations();
        let prog_items = vec![
            LabelledItem::Progression(Item::Item0),
            LabelledItem::Progression(Item::Item1),
            LabelledItem::Progression(Item::Item2),
        ];
        let junk_items = vec![
            LabelledItem::Junk(Item::Item3),
            LabelledItem::Junk(Item::Item3),
            LabelledItem::Junk(Item::Item3),
        ];
        let mut rng = GameRng::new(Seed::generate_seed().expect("Seed failed to generate."));
        let filled = shuffle_and_fill(&mut rng, locations, prog_items, junk_items)
            .expect("Number of locations does not match total number of items.");

        let all_ids = [
            LocId::Loc0,
            LocId::Loc1,
            LocId::Loc2,
            LocId::Loc3,
            LocId::Loc4,
            LocId::Loc5,
        ];
        assert_eq!(filled.len(), 6);
        for id in all_ids.iter() {
            let occurrences = filled
                .iter()
                .filter(|FilledLocation(_, loc)| loc == id)
                .count();
            assert_eq!(occurrences, 1);
        }
    }
}
