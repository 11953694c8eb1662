use game_core::item::{Inventory, ItemId};
use game_core::skills::WoodcuttingSkill;

#[test]
fn item_names() {
    assert_eq!(ItemId::Logs.name(), "logs");
    assert_eq!(ItemId::Stone.name(), "stone");
}

#[test]
fn item_codes_round_trip() {
    for id in [ItemId::Logs, ItemId::Stone] {
        assert_eq!(ItemId::from_u32(id.code()), Some(id));
    }
    assert_eq!(ItemId::Logs.code(), 1);
    assert_eq!(ItemId::Stone.code(), 2);
}

#[test]
fn unknown_item_codes() {
    assert_eq!(ItemId::from_u32(0), None);
    assert_eq!(ItemId::from_u32(3), None);
    assert_eq!(ItemId::from_u32(u32::MAX), None);
}

#[test]
fn new_inventory_is_empty() {
    let inv = Inventory::new();
    assert_eq!(inv.count(ItemId::Logs), 0);
    assert_eq!(inv.count(ItemId::Stone), 0);
    assert!(inv.to_flat_vec().is_empty());
}

#[test]
fn add_returns_new_quantity() {
    let mut inv = Inventory::new();
    assert_eq!(inv.add(ItemId::Logs, 3), 3);
    assert_eq!(inv.add(ItemId::Logs, 2), 5);
    assert_eq!(inv.count(ItemId::Logs), 5);
    assert_eq!(inv.count(ItemId::Stone), 0);
}

#[test]
fn remove_then_count() {
    let mut inv = Inventory::new();
    inv.add(ItemId::Stone, 4);
    assert_eq!(inv.remove(ItemId::Stone, 1), Some(3));
    assert_eq!(inv.count(ItemId::Stone), 3);
}

#[test]
fn remove_all_deletes_entry() {
    let mut inv = Inventory::new();
    inv.add(ItemId::Logs, 2);
    assert_eq!(inv.remove(ItemId::Logs, 2), Some(0));
    assert_eq!(inv.count(ItemId::Logs), 0);
    assert!(inv.to_flat_vec().is_empty());
}

#[test]
fn remove_too_many_fails_and_changes_nothing() {
    let mut inv = Inventory::new();
    inv.add(ItemId::Logs, 2);
    assert_eq!(inv.remove(ItemId::Logs, 3), None);
    assert_eq!(inv.count(ItemId::Logs), 2);
}

#[test]
fn remove_missing_item_fails() {
    let mut inv = Inventory::new();
    assert_eq!(inv.remove(ItemId::Stone, 1), None);
    assert_eq!(inv.remove(ItemId::Stone, 0), None);
}

#[test]
fn add_then_remove_restores_count() {
    let mut inv = Inventory::new();
    inv.add(ItemId::Logs, 7);
    inv.add(ItemId::Logs, 5);
    inv.remove(ItemId::Logs, 5);
    assert_eq!(inv.count(ItemId::Logs), 7);
}

#[test]
fn flat_vec_is_ordered_by_code() {
    let mut inv = Inventory::new();
    inv.add(ItemId::Stone, 9);
    inv.add(ItemId::Logs, 4);
    assert_eq!(inv.to_flat_vec(), vec![1, 4, 2, 9]);
}

#[test]
fn level_thresholds() {
    assert_eq!(WoodcuttingSkill::xp_for_level(0), 0);
    assert_eq!(WoodcuttingSkill::xp_for_level(1), 0);
    assert_eq!(WoodcuttingSkill::xp_for_level(2), 100);
    assert_eq!(WoodcuttingSkill::xp_for_level(3), 275);
    assert_eq!(WoodcuttingSkill::xp_for_level(4), 525);
    assert_eq!(WoodcuttingSkill::xp_for_level(5), 850);
}

#[test]
fn threshold_closed_form_at_ten() {
    // (10 - 1) * (75 * 10 + 50) / 2
    assert_eq!(WoodcuttingSkill::xp_for_level(10), 9 * 800 / 2);
}

#[test]
fn highest_threshold_that_fits() {
    assert_eq!(WoodcuttingSkill::xp_for_level(10702), 4_294_846_350);
}

#[test]
fn new_skill() {
    let s = WoodcuttingSkill::new();
    assert_eq!(s.xp, 0);
    assert_eq!(s.level, 1);
}

#[test]
fn add_xp_below_next_level() {
    let mut s = WoodcuttingSkill::new();
    s.add_xp(99);
    assert_eq!(s.xp, 99);
    assert_eq!(s.level, 1);
}

#[test]
fn add_xp_reaches_level_exactly() {
    let mut s = WoodcuttingSkill::new();
    s.add_xp(100);
    assert_eq!(s.level, 2);
}

#[test]
fn add_xp_skips_several_levels() {
    let mut s = WoodcuttingSkill::new();
    s.add_xp(600);
    assert_eq!(s.xp, 600);
    assert_eq!(s.level, 4);
}

#[test]
fn level_is_the_one_its_xp_gives() {
    let mut s = WoodcuttingSkill::new();
    for _ in 0..40 {
        s.add_xp(25);
        assert!(WoodcuttingSkill::xp_for_level(s.level) <= s.xp);
        assert!(s.xp < WoodcuttingSkill::xp_for_level(s.level + 1));
    }
    assert_eq!(s.xp, 1000);
    assert_eq!(s.level, 5);
}

#[test]
fn progress_within_level() {
    let mut s = WoodcuttingSkill::new();
    s.add_xp(130);
    assert_eq!(s.level, 2);
    assert_eq!(s.xp_for_next_level(), 275);
    assert_eq!(s.xp_in_current_level(), 30);
    assert_eq!(s.xp_needed_for_next(), 175);
}

#[test]
fn removing_what_was_added_restores_the_inventory() {
    let mut inv = Inventory::new();
    inv.add(ItemId::Logs, 7);
    inv.add(ItemId::Stone, 5);
    inv.remove(ItemId::Stone, 5);
    assert_eq!(inv.to_flat_vec(), vec![1, 7]);
    inv.add(ItemId::Logs, 3);
    inv.remove(ItemId::Logs, 3);
    assert_eq!(inv.to_flat_vec(), vec![1, 7]);
}

#[test]
fn empty_entry_is_deleted_by_a_removal() {
    let mut inv = Inventory::new();
    inv.add(ItemId::Logs, 0);
    assert_eq!(inv.to_flat_vec(), vec![1, 0]);
    inv.add(ItemId::Logs, 2);
    assert_eq!(inv.remove(ItemId::Logs, 2), Some(0));
    assert!(inv.to_flat_vec().is_empty());
}
