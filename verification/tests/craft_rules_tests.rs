use rose_data_core::craft_rules::{
    apply_npc_upgrade, apply_skill_upgrade, craft_create_attempt, pay_mana, CraftCreateOutcome,
    craft_create_outcome, decide_craft_create, decide_insert_gem, decide_npc_disassemble,
    decide_npc_upgrade, CraftInsertGemError, EquipmentSocket,
    decide_skill_disassemble, decide_skill_upgrade, disassemble_returned_materials,
    upgrade_attempt_outcome, CraftCreateItemError, CraftSkillData, CraftTargetData,
    DisassembleItemData, DisassembleRefusal, UpgradeRefusal, UpgradeSkillData, UpgradeTarget,
};
use rose_data_core::product::{ProductData, ProductDatabase, ProductMaterial};
use rose_data_core::crafting::{AbilityType, Money};
use rose_data_core::item_ref::{ItemReference, ItemType};
use rose_data_core::upgrade::{
    take_quantities,
    MaterialRequirement, SlotItem, UpgradeMaterialError, UpgradeMaterialRequirement,
};
fn ore() -> ItemReference {
    ItemReference { item_type: ItemType::Material, item_number: 7 }
}

fn skill(level: u32) -> CraftSkillData {
    CraftSkillData {
        item_make_number: 3,
        level,
        use_ability: vec![(AbilityType::Health, 5), (AbilityType::Mana, 20)],
    }
}

fn target() -> CraftTargetData {
    CraftTargetData { craft_skill_type: 3, craft_skill_level: 2 }
}

fn recipe() -> Vec<UpgradeMaterialRequirement> {
    vec![
        UpgradeMaterialRequirement { quantity: 2, requirement: MaterialRequirement::Item(ore()) },
        UpgradeMaterialRequirement { quantity: 1, requirement: MaterialRequirement::ItemClass(9) },
    ]
}

fn inventory() -> Vec<Option<SlotItem>> {
    vec![
        None,
        Some(SlotItem::Stackable { item: ore(), quantity: 3, class: Some(4) }),
        Some(SlotItem::Stackable {
            item: ItemReference { item_type: ItemType::Gem, item_number: 1 },
            quantity: 1,
            class: Some(9),
        }),
        Some(SlotItem::Other),
    ]
}

#[test]
fn craft_create_accepted_gives_the_mana_cost() {
    let s = skill(2);
    let r = recipe();
    let inv = inventory();
    assert_eq!(decide_craft_create(Some(&s), Some(target()), 50, Some(&r), &inv, &[1, 2]), Ok(20));
}

#[test]
fn craft_create_refusals_in_order() {
    let r = recipe();
    let inv = inventory();
    let slots = [1usize, 2];
    assert_eq!(
        decide_craft_create(None, Some(target()), 50, Some(&r), &inv, &slots),
        Err(CraftCreateItemError::InvalidCondition)
    );
    let s = skill(2);
    assert_eq!(
        decide_craft_create(Some(&s), None, 50, Some(&r), &inv, &slots),
        Err(CraftCreateItemError::InvalidItem)
    );
    let other_kind = CraftTargetData { craft_skill_type: 4, craft_skill_level: 2 };
    assert_eq!(
        decide_craft_create(Some(&s), Some(other_kind), 50, Some(&r), &inv, &slots),
        Err(CraftCreateItemError::InvalidItem)
    );
    let low = skill(1);
    assert_eq!(
        decide_craft_create(Some(&low), Some(target()), 50, Some(&r), &inv, &slots),
        Err(CraftCreateItemError::NeedSkillLevel)
    );
    assert_eq!(
        decide_craft_create(Some(&s), Some(target()), 19, Some(&r), &inv, &slots),
        Err(CraftCreateItemError::InvalidCondition)
    );
    assert_eq!(
        decide_craft_create(Some(&s), Some(target()), 50, None, &inv, &slots),
        Err(CraftCreateItemError::InvalidItem)
    );
}

#[test]
fn craft_create_needs_each_material_in_its_slot() {
    let s = skill(2);
    let r = recipe();
    let inv = inventory();
    // empty slot
    assert_eq!(
        decide_craft_create(Some(&s), Some(target()), 50, Some(&r), &inv, &[0, 2]),
        Err(CraftCreateItemError::NeedItem)
    );
    // wrong class for the second row
    assert_eq!(
        decide_craft_create(Some(&s), Some(target()), 50, Some(&r), &inv, &[1, 1]),
        Err(CraftCreateItemError::NeedItem)
    );
    // not a stack
    assert_eq!(
        decide_craft_create(Some(&s), Some(target()), 50, Some(&r), &inv, &[3, 2]),
        Err(CraftCreateItemError::NeedItem)
    );
    // too few
    let more = vec![UpgradeMaterialRequirement {
        quantity: 4,
        requirement: MaterialRequirement::Item(ore()),
    }];
    assert_eq!(
        decide_craft_create(Some(&s), Some(target()), 50, Some(&more), &inv, &[1]),
        Err(CraftCreateItemError::NeedItem)
    );
    // a slot past the inventory
    assert_eq!(
        decide_craft_create(Some(&s), Some(target()), 50, Some(&r), &inv, &[9, 2]),
        Err(CraftCreateItemError::NeedItem)
    );
}

#[test]
fn craft_create_outcome_rolls_and_pays_mana() {
    assert_eq!(craft_create_outcome(50, 20, 90, 189), (true, 30));
    assert_eq!(craft_create_outcome(50, 20, 90, 190), (false, 30));
    assert_eq!(craft_create_outcome(10, 20, 60, 5), (true, 0));
}

fn sword(grade: u8) -> UpgradeTarget {
    UpgradeTarget { item: ItemReference { item_type: ItemType::Weapon, item_number: 12 }, grade }
}

fn upgrade_rows() -> Option<[Option<UpgradeMaterialRequirement>; 3]> {
    Some([
        Some(UpgradeMaterialRequirement { quantity: 2, requirement: MaterialRequirement::Item(ore()) }),
        None,
        Some(UpgradeMaterialRequirement { quantity: 1, requirement: MaterialRequirement::ItemClass(9) }),
    ])
}

fn upgrade_skill() -> UpgradeSkillData {
    UpgradeSkillData {
        is_create_window: true,
        item_make_number: 42,
        use_ability: vec![(AbilityType::Mana, 15)],
    }
}

#[test]
fn upgrade_attempt_moves_the_grade() {
    // grade 2: chance 74
    assert_eq!(upgrade_attempt_outcome(2, 73), (true, 3));
    assert_eq!(upgrade_attempt_outcome(2, -174), (false, 1));
    assert_eq!(upgrade_attempt_outcome(0, 95), (false, 0));
    // the chance never falls below 10 nor rises above 95
    assert_eq!(upgrade_attempt_outcome(12, 9), (true, 13));
    assert_eq!(upgrade_attempt_outcome(12, 10), (false, 11));
    // i32::MIN rolls -48, which is below every chance
    assert_eq!(upgrade_attempt_outcome(8, i32::MIN), (true, 9));
}

#[test]
fn skill_upgrade_checks_in_order() {
    let inv = inventory();
    let s = upgrade_skill();
    assert_eq!(
        decide_skill_upgrade(Some(&s), Some(sword(3)), upgrade_rows(), &inv, [1, 0, 2], 20),
        Ok((15, [2, 0, 1]))
    );
    assert_eq!(
        decide_skill_upgrade(None, Some(sword(3)), upgrade_rows(), &inv, [1, 0, 2], 20),
        Err(UpgradeRefusal::NoSkill)
    );
    let wrong = UpgradeSkillData { is_create_window: true, item_make_number: 41, use_ability: vec![] };
    assert_eq!(
        decide_skill_upgrade(Some(&wrong), Some(sword(3)), upgrade_rows(), &inv, [1, 0, 2], 20),
        Err(UpgradeRefusal::WrongSkill)
    );
    assert_eq!(
        decide_skill_upgrade(Some(&s), None, upgrade_rows(), &inv, [1, 0, 2], 20),
        Err(UpgradeRefusal::NotEquipment)
    );
    assert_eq!(
        decide_skill_upgrade(Some(&s), Some(sword(9)), upgrade_rows(), &inv, [1, 0, 2], 20),
        Err(UpgradeRefusal::MaxGrade)
    );
    assert_eq!(
        decide_skill_upgrade(Some(&s), Some(sword(3)), upgrade_rows(), &inv, [0, 0, 2], 20),
        Err(UpgradeRefusal::Materials(UpgradeMaterialError::MissingIngredient))
    );
    assert_eq!(
        decide_skill_upgrade(Some(&s), Some(sword(3)), upgrade_rows(), &inv, [1, 0, 2], 14),
        Err(UpgradeRefusal::NotEnoughMana)
    );
}

#[test]
fn npc_upgrade_prices_and_checks() {
    let inv = inventory();
    assert_eq!(
        decide_npc_upgrade(true, Some(sword(3)), Some(50), upgrade_rows(), &inv, [1, 0, 2]),
        Ok((Money(8_400), [2, 0, 1]))
    );
    assert_eq!(
        decide_npc_upgrade(false, Some(sword(3)), Some(50), upgrade_rows(), &inv, [1, 0, 2]),
        Err(UpgradeRefusal::NpcOutOfReach)
    );
    assert_eq!(
        decide_npc_upgrade(true, Some(sword(3)), None, upgrade_rows(), &inv, [1, 0, 2]),
        Err(UpgradeRefusal::UnknownItem)
    );
    assert_eq!(
        decide_npc_upgrade(true, Some(sword(3)), Some(50), None, &inv, [1, 0, 2]),
        Err(UpgradeRefusal::Materials(UpgradeMaterialError::MissingRequirementRow))
    );
}

fn products() -> ProductDatabase {
    ProductDatabase::new(vec![
        None,
        Some(ProductData {
            raw_material_type: 0,
            materials: vec![
                ProductMaterial { item: ore(), quantity: 10 },
                ProductMaterial { item: ore(), quantity: 1 },
            ],
        }),
    ])
}

fn disassemble_skill() -> UpgradeSkillData {
    UpgradeSkillData {
        is_create_window: true,
        item_make_number: 41,
        use_ability: vec![(AbilityType::Mana, 8)],
    }
}

#[test]
fn skill_disassembly_checks_in_order() {
    let db = products();
    let s = disassemble_skill();
    let known = DisassembleItemData { quality: 30, craft_material: 1 };
    let r = decide_skill_disassemble(Some(&s), 10, Some(ore()), Some(known), &db);
    match r {
        Ok((mp, p)) => {
            assert_eq!(mp, 8);
            assert_eq!(p.materials.len(), 2);
        }
        Err(_) => panic!("disassembly should be accepted"),
    }
    assert_eq!(
        decide_skill_disassemble(None, 10, Some(ore()), Some(known), &db).err(),
        Some(DisassembleRefusal::NoSkill)
    );
    let upgrade = upgrade_skill();
    assert_eq!(
        decide_skill_disassemble(Some(&upgrade), 10, Some(ore()), Some(known), &db).err(),
        Some(DisassembleRefusal::WrongSkill)
    );
    assert_eq!(
        decide_skill_disassemble(Some(&s), 7, Some(ore()), Some(known), &db).err(),
        Some(DisassembleRefusal::NotEnoughMana)
    );
    assert_eq!(
        decide_skill_disassemble(Some(&s), 10, None, Some(known), &db).err(),
        Some(DisassembleRefusal::NoItem)
    );
    assert_eq!(
        decide_skill_disassemble(Some(&s), 10, Some(ore()), None, &db).err(),
        Some(DisassembleRefusal::UnknownItem)
    );
    let no_recipe = DisassembleItemData { quality: 30, craft_material: 0 };
    assert_eq!(
        decide_skill_disassemble(Some(&s), 10, Some(ore()), Some(no_recipe), &db).err(),
        Some(DisassembleRefusal::NoRecipe)
    );
}

#[test]
fn npc_disassembly_fee() {
    let known = DisassembleItemData { quality: 30, craft_material: 1 };
    assert_eq!(decide_npc_disassemble(true, Some(ore()), Some(known)), Ok(Money(320)));
    assert_eq!(
        decide_npc_disassemble(false, Some(ore()), Some(known)),
        Err(DisassembleRefusal::NpcOutOfReach)
    );
    assert_eq!(decide_npc_disassemble(true, None, Some(known)), Err(DisassembleRefusal::NoItem));
    assert_eq!(
        decide_npc_disassemble(true, Some(ore()), None),
        Err(DisassembleRefusal::UnknownItem)
    );
}

#[test]
fn disassembly_gives_back_half_to_three_quarters() {
    let db = products();
    let p = db.get_product(1).unwrap();
    // rolls 0 and 25 give 50 and 75 percent; 26 wraps to 50 again
    let back = disassemble_returned_materials(p, &vec![0, 25]);
    assert_eq!(back, vec![
        ProductMaterial { item: ore(), quantity: 5 },
        ProductMaterial { item: ore(), quantity: 1 },
    ]);
    let back = disassemble_returned_materials(p, &vec![25, 26]);
    assert_eq!(back[0].quantity, 7);
    assert_eq!(back[1].quantity, 1);
}

#[test]
fn gems_go_into_free_sockets_only() {
    let jewel = ItemReference { item_type: ItemType::Gem, item_number: 321 };
    let free = EquipmentSocket { has_socket: true, gem: 0 };
    assert_eq!(decide_insert_gem(Some(jewel), true, Some(free)), Some(Ok(321)));
    assert_eq!(
        decide_insert_gem(Some(jewel), true, Some(EquipmentSocket { has_socket: false, gem: 0 })),
        Some(Err(CraftInsertGemError::NoSocket))
    );
    assert_eq!(
        decide_insert_gem(Some(jewel), true, Some(EquipmentSocket { has_socket: true, gem: 301 })),
        Some(Err(CraftInsertGemError::SocketFull))
    );
    assert_eq!(
        decide_insert_gem(Some(jewel), true, Some(EquipmentSocket { has_socket: true, gem: 300 })),
        Some(Ok(321))
    );
    // not a jewel, not a gem, no item: ignored
    assert_eq!(decide_insert_gem(Some(jewel), false, Some(free)), None);
    assert_eq!(decide_insert_gem(Some(ore()), true, Some(free)), None);
    assert_eq!(decide_insert_gem(None, true, Some(free)), None);
    assert_eq!(decide_insert_gem(Some(jewel), true, None), None);
}

#[test]
fn skill_upgrade_takes_exactly_the_approved_quantities() {
    // two rows draw on the same ore stack of 3: 2 + 1 are taken, none is left
    let rows = Some([
        Some(UpgradeMaterialRequirement { quantity: 2, requirement: MaterialRequirement::Item(ore()) }),
        Some(UpgradeMaterialRequirement { quantity: 1, requirement: MaterialRequirement::Item(ore()) }),
        Some(UpgradeMaterialRequirement { quantity: 1, requirement: MaterialRequirement::ItemClass(9) }),
    ]);
    let mut inv = inventory();
    let s = upgrade_skill();
    let (mp_cost, q) =
        decide_skill_upgrade(Some(&s), Some(sword(3)), rows, &inv, [1, 1, 2], 20).unwrap();
    assert_eq!(q, [2, 1, 1]);
    let r = apply_skill_upgrade(&mut inv, [1, 1, 2], q, 20, mp_cost, 3, 10);
    assert_eq!(r.mp, 5);
    assert!(r.success);
    assert_eq!(r.grade, 4);
    assert_eq!(inv[1], None);
    assert_eq!(inv[2], None);
    assert_eq!(inv[0], None);
    assert_eq!(inv[3], Some(SlotItem::Other));
}

#[test]
fn upgrade_leaves_the_rest_of_a_stack_and_other_slots() {
    let mut inv = inventory();
    let r = apply_skill_upgrade(&mut inv, [1, 0, 2], [2, 0, 0], 10, 15, 0, 95);
    assert_eq!(r, rose_data_core::craft_rules::UpgradeAttempt { success: false, grade: 0, mp: 0 });
    assert_eq!(inv[1], Some(SlotItem::Stackable { item: ore(), quantity: 1, class: Some(4) }));
    assert_eq!(inv[2], inventory()[2]);
    let mut inv2 = inventory();
    assert_eq!(apply_npc_upgrade(&mut inv2, [1, 0, 2], [1, 0, 1], 8, 30), (false, 7));
    assert_eq!(inv2[1], Some(SlotItem::Stackable { item: ore(), quantity: 2, class: Some(4) }));
    assert_eq!(inv2[2], None);
}

#[test]
fn made_items_that_do_not_fit_spend_nothing() {
    let r = recipe();
    let mut inv = inventory();
    assert_eq!(
        craft_create_attempt(&mut inv, &r, &[1, 2], 50, 20, 90, 5, false),
        CraftCreateOutcome::NoRoom
    );
    assert_eq!(inv, inventory());
    assert_eq!(
        craft_create_attempt(&mut inv, &r, &[1, 2], 50, 20, 90, 5, true),
        CraftCreateOutcome::Made { mp: 30 }
    );
    assert_eq!(inv[1], Some(SlotItem::Stackable { item: ore(), quantity: 1, class: Some(4) }));
    assert_eq!(inv[2], None);
    // a failed roll spends the materials and the mana whether or not it fits
    let mut inv3 = inventory();
    assert_eq!(
        craft_create_attempt(&mut inv3, &r, &[1, 2], 50, 20, 90, 95, false),
        CraftCreateOutcome::Failed { mp: 30 }
    );
    assert_eq!(inv3[2], None);
}

#[test]
fn taking_more_than_a_stack_takes_nothing() {
    let mut inv = inventory();
    take_quantities(&mut inv, &[1, 3, 9], &[4, 1, 1]);
    assert_eq!(inv, inventory());
    assert_eq!(pay_mana(3, 5), 0);
    assert_eq!(pay_mana(8, 5), 3);
}
