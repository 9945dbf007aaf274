use rose_data_core::crafting::{
    disassemble_from_npc_price, manufacture_required_mp, manufacture_success_chance,
    resolve_upgrade_product_row_id, upgrade_from_npc_price, AbilityType, Money,
};
use rose_data_core::item_ref::{ItemReference, ItemType};

#[test]
fn disassemble_npc_price_matches_original_formula() {
    assert_eq!(disassemble_from_npc_price(0), Money(20));
    assert_eq!(disassemble_from_npc_price(42), Money(440));
}

#[test]
fn upgrade_npc_price_matches_original_formula() {
    assert_eq!(upgrade_from_npc_price(50, 0), Money(0));
    assert_eq!(upgrade_from_npc_price(50, 3), Money(8_400));
}

#[test]
fn upgrade_product_rows_depend_on_weapon_and_grade() {
    let weapon = ItemReference::new(ItemType::Weapon, 5);
    let body = ItemReference::new(ItemType::Body, 5);
    let gem = ItemReference::new(ItemType::Gem, 5);
    assert_eq!(resolve_upgrade_product_row_id(weapon, 0), Some(1));
    assert_eq!(resolve_upgrade_product_row_id(weapon, 4), Some(5));
    assert_eq!(resolve_upgrade_product_row_id(body, 2), Some(13));
    assert_eq!(resolve_upgrade_product_row_id(gem, 2), None);
}

#[test]
fn manufacture_mp_takes_the_mana_cost() {
    let costs = [(AbilityType::Health, 7), (AbilityType::Mana, 25)];
    assert_eq!(manufacture_required_mp(&costs), 25);
    assert_eq!(manufacture_required_mp(&[(AbilityType::Mana, -3)]), 0);
    let none: [(AbilityType, i32); 0] = [];
    assert_eq!(manufacture_required_mp(&none), 0);
}

#[test]
fn manufacture_chance_is_a_percentage() {
    assert_eq!(manufacture_success_chance(10, 5, 100), 99);
    assert_eq!(manufacture_success_chance(5, 5, 50), 60);
    assert_eq!(manufacture_success_chance(5, 5, 100), 92);
}
