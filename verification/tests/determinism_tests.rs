//! Determinism: a fixed seed and a fixed call order reproduce the same
//! placements, and the rng's shuffle keeps exactly the elements it was
//! given.

use mini_rando::randomizer::filler::{shuffle_and_fill, FilledLocation};
use mini_rando::randomizer::item::{Item, LabelledItem};
use mini_rando::randomizer::location::{IsAccessible, LocId, Location};
use mini_rando::randomizer::seed::{Seed, SeedId};
use mini_rando::rng::GameRng;

fn scenario_locations() -> Vec<Location> {
    vec![
        Location(
            LocId::Loc0,
            IsAccessible(vec![LabelledItem::Progression(Item::Item0)]),
        ),
        Location(
            LocId::Loc1,
            IsAccessible(vec![
                LabelledItem::Progression(Item::Item0),
                LabelledItem::Progression(Item::Item1),
            ]),
        ),
        Location(LocId::Loc2, IsAccessible(vec![])),
        Location(LocId::Loc3, IsAccessible(vec![])),
        Location(LocId::Loc4, IsAccessible(vec![])),
        Location(LocId::Loc5, IsAccessible(vec![])),
    ]
}

fn run_pipeline(seed_string: &str) -> Vec<FilledLocation> {
    let id = SeedId::new(String::from(seed_string)).expect("ten characters");
    let mut rng = GameRng::new(Seed::from_id(id));
    let prog_items = vec![
        LabelledItem::Progression(Item::Item0),
        LabelledItem::Progression(Item::Item1),
        LabelledItem::Progression(Item::Item2),
    ];
    let junk_items = vec![
        LabelledItem::Junk(Item::Item3),
        LabelledItem::Junk(Item::Item3),
        LabelledItem::Junk(Item::Item3),
    ];
    shuffle_and_fill(&mut rng, scenario_locations(), prog_items, junk_items)
        .expect("Number of locations does not match total number of items.")
}

#[test]
fn same_seed_id_reproduces_the_same_placements() {
    let first = run_pipeline("ABCDEFGHIJ");
    let second = run_pipeline("ABCDEFGHIJ");
    assert_eq!(first, second);

    let third = run_pipeline("9876543210");
    let fourth = run_pipeline("9876543210");
    assert_eq!(third, fourth);
}

#[test]
fn shuffle_keeps_the_elements() {
    let id = SeedId::new(String::from("AAAAAAAAAA")).expect("ten characters");
    let mut rng = GameRng::new(Seed::from_id(id));
    let original: Vec<u64> = vec![4, 8, 15, 16, 23, 42];
    let shuffled = rng.shuffle(original.clone());
    assert_eq!(shuffled.len(), original.len());
    let mut sorted = shuffled.clone();
    sorted.sort();
    assert_eq!(sorted, original);
}

#[test]
fn shuffle_is_deterministic_per_seed_and_call_order() {
    let make_rng = || {
        let id = SeedId::new(String::from("AAAAAAAAAA")).expect("ten characters");
        GameRng::new(Seed::from_id(id))
    };
    let mut first = make_rng();
    let mut second = make_rng();
    let input: Vec<u64> = (0..20).collect();
    assert_eq!(first.shuffle(input.clone()), second.shuffle(input.clone()));
    // the second call draws further rng state, in step on both sides
    assert_eq!(first.shuffle(input.clone()), second.shuffle(input));
}
