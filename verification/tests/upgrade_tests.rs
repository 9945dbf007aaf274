use rose_data_core::item_ref::{ItemReference, ItemType};
use rose_data_core::upgrade::{
    collect_craft_material_inventory_updates, validate_upgrade_materials, MaterialRequirement,
    SlotItem, UpgradeMaterialError, UpgradeMaterialRequirement,
};

fn stone() -> ItemReference {
    ItemReference::new(ItemType::Material, 41)
}

fn stack(item: ItemReference, quantity: u32, class: Option<u32>) -> Option<SlotItem> {
    Some(SlotItem::Stackable { item, quantity, class })
}

fn need(quantity: u32, requirement: MaterialRequirement) -> Option<UpgradeMaterialRequirement> {
    Some(UpgradeMaterialRequirement { quantity, requirement })
}

#[test]
fn materials_in_separate_slots_pass() {
    let inventory = vec![stack(stone(), 5, Some(421)), stack(ItemReference::new(ItemType::Gem, 3), 2, Some(7))];
    let reqs = [need(5, MaterialRequirement::Item(stone())), need(2, MaterialRequirement::ItemClass(7)), None];
    assert_eq!(validate_upgrade_materials(Some(reqs), &inventory, [0, 1, 0]), Ok([5, 2, 0]));
}

#[test]
fn one_slot_cannot_pay_two_rows_twice() {
    let inventory = vec![stack(stone(), 5, Some(421))];
    let reqs = [
        need(5, MaterialRequirement::Item(stone())),
        need(3, MaterialRequirement::ItemClass(421)),
        None,
    ];
    assert_eq!(
        validate_upgrade_materials(Some(reqs), &inventory, [0, 0, 0]),
        Err(UpgradeMaterialError::InsufficientAggregate)
    );
    let enough = vec![stack(stone(), 8, Some(421))];
    assert_eq!(validate_upgrade_materials(Some(reqs), &enough, [0, 0, 0]), Ok([5, 3, 0]));
}

#[test]
fn material_errors_in_order() {
    let inventory = vec![stack(stone(), 1, None), Some(SlotItem::Other)];
    assert_eq!(
        validate_upgrade_materials(None, &inventory, [0, 0, 0]),
        Err(UpgradeMaterialError::MissingRequirementRow)
    );
    let reqs = [need(1, MaterialRequirement::Item(stone())), need(1, MaterialRequirement::Unknown), None];
    assert_eq!(
        validate_upgrade_materials(Some(reqs), &inventory, [0, 5, 0]),
        Err(UpgradeMaterialError::MissingIngredient)
    );
    assert_eq!(
        validate_upgrade_materials(Some(reqs), &inventory, [0, 1, 0]),
        Err(UpgradeMaterialError::IngredientMismatch)
    );
    let too_many = [need(2, MaterialRequirement::Item(stone())), None, None];
    assert_eq!(
        validate_upgrade_materials(Some(too_many), &inventory, [0, 0, 0]),
        Err(UpgradeMaterialError::IngredientMismatch)
    );
    let wrong_class = [need(1, MaterialRequirement::ItemClass(9)), None, None];
    assert_eq!(
        validate_upgrade_materials(Some(wrong_class), &inventory, [0, 0, 0]),
        Err(UpgradeMaterialError::IngredientMismatch)
    );
}

#[test]
fn craft_updates_name_each_slot_once() {
    let inventory = vec![stack(stone(), 1, None), None, Some(SlotItem::Other)];
    let updates = collect_craft_material_inventory_updates(&inventory, &vec![2, 0, 2, 1, 0]);
    assert_eq!(updates, vec![(2, Some(SlotItem::Other)), (0, stack(stone(), 1, None)), (1, None)]);
    assert!(collect_craft_material_inventory_updates(&inventory, &vec![]).is_empty());
}
