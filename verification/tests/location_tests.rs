//! Locations, accessibility rules, and the item membership test.

use mini_rando::randomizer::item::{Item, LabelledItem};
use mini_rando::randomizer::item_shuffler::{contains_item, ItemFlags, ITEM_1, ITEM_2, ITEM_3};
use mini_rando::randomizer::location::{has_item, IsAccessible, LocId, Location};

#[test]
fn has_item_finds_only_present_items() {
    let items = [
        LabelledItem::Progression(Item::Item0),
        LabelledItem::Junk(Item::Item3),
    ];
    assert!(has_item(&items, LabelledItem::Progression(Item::Item0)));
    assert!(has_item(&items, LabelledItem::Junk(Item::Item3)));
    assert!(!has_item(&items, LabelledItem::Progression(Item::Item1)));
    assert!(!has_item(&items, LabelledItem::Nice(Item::Item0)));
    assert!(!has_item(&[], LabelledItem::Progression(Item::Item0)));
}

#[test]
fn accessibility_is_the_conjunction_of_requirements() {
    let rule = IsAccessible(vec![
        LabelledItem::Progression(Item::Item0),
        LabelledItem::Progression(Item::Item1),
    ]);
    assert!(!rule.is_accessible(&[]));
    assert!(!rule.is_accessible(&[LabelledItem::Progression(Item::Item0)]));
    assert!(rule.is_accessible(&[
        LabelledItem::Progression(Item::Item0),
        LabelledItem::Progression(Item::Item1),
    ]));
    // monotone: more assumed items never hurt
    assert!(rule.is_accessible(&[
        LabelledItem::Progression(Item::Item1),
        LabelledItem::Junk(Item::Item3),
        LabelledItem::Progression(Item::Item0),
    ]));
}

#[test]
fn unconstrained_rule_is_always_accessible() {
    let rule = IsAccessible(vec![]);
    assert!(rule.is_accessible(&[]));
    assert!(rule.is_accessible(&[LabelledItem::Junk(Item::Item3)]));
}

#[test]
fn location_equality_goes_by_id_alone() {
    let first = Location(LocId::Loc0, IsAccessible(vec![]));
    let second = Location(
        LocId::Loc0,
        IsAccessible(vec![LabelledItem::Progression(Item::Item0)]),
    );
    let third = Location(LocId::Loc1, IsAccessible(vec![]));
    assert!(first == second);
    assert!(first != third);
}

#[test]
fn contains_item_tests_flag_intersection() {
    let both = ItemFlags::from_bits(ITEM_1 | ITEM_2);
    assert!(contains_item(both, ItemFlags::from_bits(ITEM_1)));
    assert!(contains_item(both, ItemFlags::from_bits(ITEM_2)));
    assert!(!contains_item(both, ItemFlags::from_bits(ITEM_3)));
    assert!(!contains_item(
        ItemFlags::from_bits(0),
        ItemFlags::from_bits(ITEM_1)
    ));
    assert!(ItemFlags::from_bits(0).is_empty());
    assert!(!both.is_empty());
}
