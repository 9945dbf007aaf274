//! Deciding a request to manufacture an item with a crafting skill: which
//! check refuses it, or the mana it costs; and what an attempt leaves.
use vstd::prelude::*;

use crate::crafting::{
    disassemble_from_npc_price, first_mana_cost, manufacture_required_mp, spec_upgrade_price,
    upgrade_from_npc_price, AbilityType, Money,
};
use crate::product::{ProductData, ProductDatabase, ProductMaterial};
use crate::item_ref::ItemReference;
use crate::upgrade::{
    row_met, slot_content, spec_validate, take_quantities, take_rows, validate_upgrade_materials,
    SlotItem, UpgradeMaterialError, UpgradeMaterialRequirement,
};

verus! {

/// The manufacturing skill in the requested skill slot, as the check reads it.
pub struct CraftSkillData {
    /// The kind of items this skill makes.
    pub item_make_number: u32,
    pub level: u32,
    /// What casting the skill costs.
    pub use_ability: Vec<(AbilityType, i32)>,
}

/// What the target item's data says of making it.
#[derive(Debug, Clone, Copy, PartialEq, Eq, Structural)]
pub struct CraftTargetData {
    /// The kind of skill that makes it.
    pub craft_skill_type: u32,
    /// The skill level that making it takes.
    pub craft_skill_level: u32,
}

/// Why a manufacturing request is refused or comes to nothing.
#[derive(Debug, Clone, Copy, PartialEq, Eq, Structural)]
pub enum CraftCreateItemError {
    /// No such skill, too little mana, or no room for the result.
    InvalidCondition,
    /// No such item, not one this skill makes, or no recipe for it.
    InvalidItem,
    /// The skill's level is below what the item takes.
    NeedSkillLevel,
    /// A material is missing or falls short.
    NeedItem,
    /// The attempt failed; the materials are spent.
    Failed,
}

/// The mana a manufacturing skill takes, as `manufacture_required_mp` gives it.
pub open spec fn required_mp_of(use_ability: Seq<(AbilityType, i32)>) -> i32 {
    match first_mana_cost(use_ability) {
        Some(v) => if v > 0 {
            v
        } else {
            0
        },
        None => 0,
    }
}

/// The checks before the materials, in order: the skill exists; the item
/// exists; the skill makes that kind of item; its level is high enough; the
/// crafter has the mana; the item has a recipe. Gives the mana it takes.
pub open spec fn craft_precheck(
    skill: Option<CraftSkillData>,
    target: Option<CraftTargetData>,
    mp: i32,
    has_recipe: bool,
) -> Result<i32, CraftCreateItemError> {
    match skill {
        None => Err(CraftCreateItemError::InvalidCondition),
        Some(s) => match target {
            None => Err(CraftCreateItemError::InvalidItem),
            Some(t) => if s.item_make_number != t.craft_skill_type {
                Err(CraftCreateItemError::InvalidItem)
            } else if s.level < t.craft_skill_level {
                Err(CraftCreateItemError::NeedSkillLevel)
            } else if mp < required_mp_of(s.use_ability@) {
                Err(CraftCreateItemError::InvalidCondition)
            } else if !has_recipe {
                Err(CraftCreateItemError::InvalidItem)
            } else {
                Ok(required_mp_of(s.use_ability@))
            },
        },
    }
}

/// The stack in `slot` meets the material row by itself.
pub open spec fn material_met(
    inv: Seq<Option<SlotItem>>,
    slot: usize,
    req: UpgradeMaterialRequirement,
) -> bool {
    match slot_content(inv, slot) {
        Some(item) => row_met(item, req),
        None => false,
    }
}

/// The answer to a manufacturing request: the checks of `craft_precheck`,
/// then each material of the recipe must be met by the slot chosen for it.
/// Gives the mana the attempt takes.
pub open spec fn spec_craft_create(
    skill: Option<CraftSkillData>,
    target: Option<CraftTargetData>,
    mp: i32,
    materials: Option<Seq<UpgradeMaterialRequirement>>,
    inv: Seq<Option<SlotItem>>,
    slots: Seq<usize>,
) -> Result<i32, CraftCreateItemError> {
    match craft_precheck(skill, target, mp, materials is Some) {
        Err(e) => Err(e),
        Ok(required) => if forall|i: int|
            0 <= i < materials.unwrap().len() ==> #[trigger] material_met(
                inv,
                slots[i],
                materials.unwrap()[i],
            ) {
            Ok(required)
        } else {
            Err(CraftCreateItemError::NeedItem)
        },
    }
}

fn material_in_slot_met(
    inventory: &Vec<Option<SlotItem>>,
    slot: usize,
    req: UpgradeMaterialRequirement,
) -> (r: bool)
    ensures
        r == material_met(inventory@, slot, req),
{
    if slot >= inventory.len() {
        return false;
    }
    match inventory[slot] {
        None => false,
        Some(item) => match (item, req.requirement) {
            (
                SlotItem::Stackable { item, quantity, .. },
                crate::upgrade::MaterialRequirement::Item(wanted),
            ) => item == wanted && quantity >= req.quantity,
            (
                SlotItem::Stackable { quantity, class, .. },
                crate::upgrade::MaterialRequirement::ItemClass(c),
            ) => quantity >= req.quantity && class == Some(c),
            _ => false,
        },
    }
}

/// Decides a request to manufacture an item: `skill` is the skill in the
/// requested slot, `target` the data of the requested item, `mp` the
/// crafter's mana, `materials` the recipe's material rows (none when the item
/// has no recipe), `inventory` the crafter's slots and `material_slots` the
/// slot chosen for each material. Gives the mana the attempt takes, or why
/// it is refused.
pub fn decide_craft_create(
    skill: Option<&CraftSkillData>,
    target: Option<CraftTargetData>,
    mp: i32,
    materials: Option<&Vec<UpgradeMaterialRequirement>>,
    inventory: &Vec<Option<SlotItem>>,
    material_slots: &[usize],
) -> (r: Result<i32, CraftCreateItemError>)
    requires
        craft_precheck(
            match skill {
                Some(s) => Some(*s),
                None => None,
            },
            target,
            mp,
            materials is Some,
        ) is Ok ==> materials.unwrap()@.len() <= material_slots@.len(),
    ensures
        r == spec_craft_create(
            match skill {
                Some(s) => Some(*s),
                None => None,
            },
            target,
            mp,
            match materials {
                Some(m) => Some(m@),
                None => None,
            },
            inventory@,
            material_slots@,
        ),
{
    let s = match skill {
        None => {
            return Err(CraftCreateItemError::InvalidCondition);
        },
        Some(s) => s,
    };
    let t = match target {
        None => {
            return Err(CraftCreateItemError::InvalidItem);
        },
        Some(t) => t,
    };
    if s.item_make_number != t.craft_skill_type {
        return Err(CraftCreateItemError::InvalidItem);
    }
    if s.level < t.craft_skill_level {
        return Err(CraftCreateItemError::NeedSkillLevel);
    }
    let required_mp = manufacture_required_mp(s.use_ability.as_slice());
    if mp < required_mp {
        return Err(CraftCreateItemError::InvalidCondition);
    }
    let mats = match materials {
        None => {
            return Err(CraftCreateItemError::InvalidItem);
        },
        Some(m) => m,
    };
    let ghost msk = Some(*s);
    assert(craft_precheck(msk, target, mp, true) == Ok::<i32, CraftCreateItemError>(required_mp));
    let mut i: usize = 0;
    while i < mats.len()
        invariant
            craft_precheck(msk, target, mp, true) == Ok::<i32, CraftCreateItemError>(required_mp),
            msk == match skill {
                Some(s) => Some(*s),
                None => None::<CraftSkillData>,
            },
            materials == Some(mats),
            i <= mats@.len(),
            mats@.len() <= material_slots@.len(),
            forall|k: int| 0 <= k < i ==> #[trigger] material_met(
                inventory@,
                material_slots@[k],
                mats@[k],
            ),
        decreases mats@.len() - i,
    {
        if !material_in_slot_met(inventory, material_slots[i], mats[i]) {
            let ghost mm: Option<Seq<UpgradeMaterialRequirement>> = match materials {
                Some(m) => Some(m@),
                None => None,
            };
            assert(!material_met(inventory@, material_slots@[i as int], mm.unwrap()[i as int]));
            assert(spec_craft_create(msk, target, mp, mm, inventory@, material_slots@)
                == Err::<i32, CraftCreateItemError>(CraftCreateItemError::NeedItem));
            return Err(CraftCreateItemError::NeedItem);
        }
        i = i + 1;
    }
    Ok(required_mp)
}

/// The crafter's mana after paying `cost`: what is left, not below zero.
pub open spec fn mana_after(mp: i32, cost: i32) -> i32 {
    if mp - cost < 0 {
        0
    } else {
        (mp - cost) as i32
    }
}

/// Pays `cost` mana from `mp`, not going below zero.
pub fn pay_mana(mp: i32, cost: i32) -> (r: i32)
    requires
        i32::MIN <= mp - cost <= i32::MAX,
    ensures
        r == mana_after(mp, cost),
{
    let left = mp - cost;
    if left < 0 {
        0
    } else {
        left
    }
}

/// What an attempt leaves, once the materials are spent: whether the item is
/// made (the roll, taken modulo 100, falls below the success chance) and the
/// crafter's mana after paying, not below zero.
pub fn craft_create_outcome(mp: i32, required_mp: i32, success_chance: i32, roll: u32) -> (r: (
    bool,
    i32,
))
    requires
        i32::MIN <= mp - required_mp <= i32::MAX,
    ensures
        r.0 == ((roll % 100) < success_chance),
        r.1 == mana_after(mp, required_mp),
{
    let made = ((roll % 100) as i32) < success_chance;
    (made, pay_mana(mp, required_mp))
}

/// The quantities of a recipe's material rows, in order.
pub open spec fn material_quantities(materials: Seq<UpgradeMaterialRequirement>) -> Seq<u32> {
    Seq::new(materials.len(), |i: int| materials[i].quantity)
}

/// How a manufacturing attempt that passed its checks ends.
#[derive(Debug, Clone, Copy, PartialEq, Eq, Structural)]
pub enum CraftCreateOutcome {
    /// The item would be made but does not fit: refused with
    /// `CraftCreateItemError::InvalidCondition`, nothing spent.
    NoRoom,
    /// The item is made; the materials and the mana are spent.
    Made { mp: i32 },
    /// The attempt failed (`CraftCreateItemError::Failed`); the materials and
    /// the mana are spent.
    Failed { mp: i32 },
}

/// The answer to a manufacturing attempt: a made item that would not fit
/// leaves everything as it was; else the materials are taken and the mana
/// paid, and the roll says whether the item is made.
pub open spec fn spec_craft_create_attempt(
    mp: i32,
    required_mp: i32,
    success_chance: i32,
    roll: u32,
    fits_after_materials: bool,
) -> CraftCreateOutcome {
    if (roll % 100) < success_chance {
        if fits_after_materials {
            CraftCreateOutcome::Made { mp: mana_after(mp, required_mp) }
        } else {
            CraftCreateOutcome::NoRoom
        }
    } else {
        CraftCreateOutcome::Failed { mp: mana_after(mp, required_mp) }
    }
}

/// Carries out a manufacturing attempt that `decide_craft_create` accepted:
/// `required_mp` is the mana it gave, `roll` the random value,
/// `fits_after_materials` whether the inventory, once the materials are taken
/// (`take_rows` of it), has room for the made item. Takes the recipe's
/// quantities from the chosen slots unless the attempt is refused for room.
pub fn craft_create_attempt(
    inventory: &mut Vec<Option<SlotItem>>,
    materials: &Vec<UpgradeMaterialRequirement>,
    material_slots: &[usize],
    mp: i32,
    required_mp: i32,
    success_chance: i32,
    roll: u32,
    fits_after_materials: bool,
) -> (r: CraftCreateOutcome)
    requires
        materials@.len() <= material_slots@.len(),
        i32::MIN <= mp - required_mp <= i32::MAX,
    ensures
        r == spec_craft_create_attempt(mp, required_mp, success_chance, roll, fits_after_materials),
        r is NoRoom ==> final(inventory)@ == old(inventory)@,
        !(r is NoRoom) ==> final(inventory)@ == take_rows(
            old(inventory)@,
            material_slots@,
            material_quantities(materials@),
            materials@.len(),
        ),
{
    let made = ((roll % 100) as i32) < success_chance;
    if made && !fits_after_materials {
        return CraftCreateOutcome::NoRoom;
    }
    let mut quantities: Vec<u32> = Vec::new();
    let mut i: usize = 0;
    while i < materials.len()
        invariant
            i <= materials@.len(),
            quantities@ == material_quantities(materials@).take(i as int),
        decreases materials@.len() - i,
    {
        quantities.push(materials[i].quantity);
        i = i + 1;
        assert(quantities@ =~= material_quantities(materials@).take(i as int));
    }
    assert(quantities@ =~= material_quantities(materials@));
    take_quantities(inventory, material_slots, quantities.as_slice());
    let left = pay_mana(mp, required_mp);
    if made {
        CraftCreateOutcome::Made { mp: left }
    } else {
        CraftCreateOutcome::Failed { mp: left }
    }
}

/// The highest grade an item can be upgraded from is one below this.
pub const MAX_UPGRADE_GRADE: u8 = 9;

/// The item-making number of the skill that opens the upgrade window.
pub const UPGRADE_MAKE_NUMBER: u32 = 42;

/// The chance in percent that upgrading an item of this grade succeeds:
/// 90 less 8 per grade, held between 10 and 95.
pub open spec fn spec_upgrade_success_chance(grade: u8) -> i32 {
    if 90 - 8 * grade < 10 {
        10
    } else if 90 - 8 * grade > 95 {
        95
    } else {
        (90 - 8 * grade) as i32
    }
}

/// The percent roll made from a random `i32`: its absolute value, taken back
/// as an `i32`, with the remainder of a division by 100. The one value whose
/// absolute value does not fit, `i32::MIN`, stays itself and rolls -48.
pub open spec fn spec_upgrade_roll(raw: i32) -> i32 {
    if raw == i32::MIN {
        -48i32
    } else if raw < 0 {
        ((-raw) % 100) as i32
    } else {
        (raw % 100) as i32
    }
}

/// An upgrade attempt on an item of grade `grade` with the random value
/// `raw_roll`: whether it succeeds, and the item's grade after it (one up on
/// success, else one down but not below zero).
pub fn upgrade_attempt_outcome(grade: u8, raw_roll: i32) -> (r: (bool, u8))
    requires
        grade < 255,
    ensures
        r.0 == (spec_upgrade_roll(raw_roll) < spec_upgrade_success_chance(grade)),
        r.1 == (if r.0 {
            (grade + 1) as u8
        } else if grade > 0 {
            (grade - 1) as u8
        } else {
            0u8
        }),
{
    let g = grade as i32;
    let raw_chance = 90 - g * 8;
    let chance = if raw_chance < 10 {
        10
    } else if raw_chance > 95 {
        95
    } else {
        raw_chance
    };
    // the absolute value of i32::MIN wraps back to itself, whose remainder is -48
    let roll: i32 = if raw_roll == i32::MIN {
        -48
    } else if raw_roll < 0 {
        (-raw_roll) % 100
    } else {
        raw_roll % 100
    };
    let made = roll < chance;
    let new_grade = if made {
        grade + 1
    } else if grade > 0 {
        grade - 1
    } else {
        0
    };
    (made, new_grade)
}

/// What an upgrade attempt leaves.
#[derive(Debug, Clone, Copy, PartialEq, Eq, Structural)]
pub struct UpgradeAttempt {
    /// The upgrade succeeded (`CraftUpgradeSuccess`), else it failed
    /// (`CraftUpgradeFailed`).
    pub success: bool,
    /// The item's grade after the attempt.
    pub grade: u8,
    /// The crafter's mana after the attempt.
    pub mp: i32,
}

/// Carries out an upgrade with a skill that `decide_skill_upgrade` accepted:
/// takes from each ingredient slot the quantities it approved, pays the mana
/// (not below zero), and rolls the new grade of an item of grade `grade`.
pub fn apply_skill_upgrade(
    inventory: &mut Vec<Option<SlotItem>>,
    ingredients: [usize; 3],
    quantities: [u32; 3],
    mp: i32,
    required_mp: i32,
    grade: u8,
    raw_roll: i32,
) -> (r: UpgradeAttempt)
    requires
        grade < 255,
        i32::MIN <= mp - required_mp <= i32::MAX,
    ensures
        final(inventory)@ == take_rows(old(inventory)@, ingredients@, quantities@, 3),
        r.mp == mana_after(mp, required_mp),
        r.success == (spec_upgrade_roll(raw_roll) < spec_upgrade_success_chance(grade)),
        r.grade == (if r.success {
            (grade + 1) as u8
        } else if grade > 0 {
            (grade - 1) as u8
        } else {
            0u8
        }),
{
    take_quantities(inventory, ingredients.as_slice(), quantities.as_slice());
    let left = pay_mana(mp, required_mp);
    let (success, new_grade) = upgrade_attempt_outcome(grade, raw_roll);
    UpgradeAttempt { success, grade: new_grade, mp: left }
}

/// Carries out an upgrade at an NPC that `decide_npc_upgrade` accepted, once
/// its price is paid: takes the approved quantities and rolls the new grade.
pub fn apply_npc_upgrade(
    inventory: &mut Vec<Option<SlotItem>>,
    ingredients: [usize; 3],
    quantities: [u32; 3],
    grade: u8,
    raw_roll: i32,
) -> (r: (bool, u8))
    requires
        grade < 255,
    ensures
        final(inventory)@ == take_rows(old(inventory)@, ingredients@, quantities@, 3),
        r == (
            spec_upgrade_roll(raw_roll) < spec_upgrade_success_chance(grade),
            if spec_upgrade_roll(raw_roll) < spec_upgrade_success_chance(grade) {
                (grade + 1) as u8
            } else if grade > 0 {
                (grade - 1) as u8
            } else {
                0u8
            },
        ),
{
    take_quantities(inventory, ingredients.as_slice(), quantities.as_slice());
    upgrade_attempt_outcome(grade, raw_roll)
}

/// Why an upgrade request is ignored.
#[derive(Debug, Clone, Copy, PartialEq, Eq, Structural)]
pub enum UpgradeRefusal {
    /// No skill in the requested slot.
    NoSkill,
    /// The skill is not the one that opens the upgrade window.
    WrongSkill,
    /// The NPC is not in this zone or too far away.
    NpcOutOfReach,
    /// The item slot holds no equipment.
    NotEquipment,
    /// The item is already at the highest grade.
    MaxGrade,
    /// The item data does not know the item.
    UnknownItem,
    /// The materials do not do.
    Materials(UpgradeMaterialError),
    /// Too little mana.
    NotEnoughMana,
}

/// A skill as the upgrade check reads it.
pub struct UpgradeSkillData {
    /// The skill opens a crafting window.
    pub is_create_window: bool,
    pub item_make_number: u32,
    pub use_ability: Vec<(AbilityType, i32)>,
}

/// The equipment in the item slot: which item it is and its grade.
#[derive(Debug, Clone, Copy, PartialEq, Eq, Structural)]
pub struct UpgradeTarget {
    pub item: ItemReference,
    pub grade: u8,
}

/// The material check of an upgrade, its error taken as a refusal.
pub open spec fn materials_check(
    requirements: Option<[Option<UpgradeMaterialRequirement>; 3]>,
    inv: Seq<Option<SlotItem>>,
    ingredients: [usize; 3],
) -> Result<Seq<u32>, UpgradeRefusal> {
    match spec_validate(
        match requirements {
            Some(a) => Some(a@),
            None => None,
        },
        inv,
        ingredients@,
    ) {
        Ok(q) => Ok(q),
        Err(e) => Err(UpgradeRefusal::Materials(e)),
    }
}

/// The answer to an upgrade with a skill, checked in this order: the skill
/// exists and opens the upgrade window; the slot holds equipment below the
/// highest grade; the materials do; the crafter has the mana. Gives the mana
/// it takes and the quantity taken per material row.
pub open spec fn spec_skill_upgrade(
    skill: Option<UpgradeSkillData>,
    target: Option<UpgradeTarget>,
    requirements: Option<[Option<UpgradeMaterialRequirement>; 3]>,
    inv: Seq<Option<SlotItem>>,
    ingredients: [usize; 3],
    mp: i32,
) -> Result<(i32, Seq<u32>), UpgradeRefusal> {
    match skill {
        None => Err(UpgradeRefusal::NoSkill),
        Some(s) => if !s.is_create_window || s.item_make_number != UPGRADE_MAKE_NUMBER {
            Err(UpgradeRefusal::WrongSkill)
        } else {
            match target {
                None => Err(UpgradeRefusal::NotEquipment),
                Some(t) => if t.grade >= MAX_UPGRADE_GRADE {
                    Err(UpgradeRefusal::MaxGrade)
                } else {
                    match materials_check(requirements, inv, ingredients) {
                        Err(e) => Err(e),
                        Ok(q) => if mp < required_mp_of(s.use_ability@) {
                            Err(UpgradeRefusal::NotEnoughMana)
                        } else {
                            Ok((required_mp_of(s.use_ability@), q))
                        },
                    }
                },
            }
        },
    }
}

fn check_materials(
    requirements: Option<[Option<UpgradeMaterialRequirement>; 3]>,
    inventory: &Vec<Option<SlotItem>>,
    ingredients: [usize; 3],
) -> (r: Result<[u32; 3], UpgradeRefusal>)
    ensures
        match materials_check(requirements, inventory@, ingredients) {
            Ok(q) => r matches Ok(a) && a@ == q,
            Err(e) => r == Err::<[u32; 3], UpgradeRefusal>(e),
        },
{
    match validate_upgrade_materials(requirements, inventory, ingredients) {
        Ok(q) => Ok(q),
        Err(e) => Err(UpgradeRefusal::Materials(e)),
    }
}

/// Decides an upgrade with a skill: `skill` is the skill in the requested
/// slot, `target` the equipment in the item slot (none when it holds
/// anything else), `requirements` the material rows for its next grade,
/// `ingredients` the slot chosen for each row and `mp` the crafter's mana.
pub fn decide_skill_upgrade(
    skill: Option<&UpgradeSkillData>,
    target: Option<UpgradeTarget>,
    requirements: Option<[Option<UpgradeMaterialRequirement>; 3]>,
    inventory: &Vec<Option<SlotItem>>,
    ingredients: [usize; 3],
    mp: i32,
) -> (r: Result<(i32, [u32; 3]), UpgradeRefusal>)
    ensures
        match spec_skill_upgrade(
            match skill {
                Some(s) => Some(*s),
                None => None,
            },
            target,
            requirements,
            inventory@,
            ingredients,
            mp,
        ) {
            Ok((m, q)) => r matches Ok((rm, a)) && rm == m && a@ == q,
            Err(e) => r == Err::<(i32, [u32; 3]), UpgradeRefusal>(e),
        },
{
    let s = match skill {
        None => {
            return Err(UpgradeRefusal::NoSkill);
        },
        Some(s) => s,
    };
    if !s.is_create_window || s.item_make_number != UPGRADE_MAKE_NUMBER {
        return Err(UpgradeRefusal::WrongSkill);
    }
    let required_mp = manufacture_required_mp(s.use_ability.as_slice());
    let t = match target {
        None => {
            return Err(UpgradeRefusal::NotEquipment);
        },
        Some(t) => t,
    };
    if t.grade >= MAX_UPGRADE_GRADE {
        return Err(UpgradeRefusal::MaxGrade);
    }
    let quantities = match check_materials(requirements, inventory, ingredients) {
        Ok(q) => q,
        Err(e) => {
            return Err(e);
        },
    };
    if mp < required_mp {
        return Err(UpgradeRefusal::NotEnoughMana);
    }
    Ok((required_mp, quantities))
}

/// The answer to an upgrade at an NPC, checked in this order: the NPC is
/// within reach; the slot holds equipment below the highest grade; the item
/// data knows its quality; the materials do. Gives the price and the quantity
/// taken per material row; taking the money is the inventory's part.
pub open spec fn spec_npc_upgrade(
    npc_in_reach: bool,
    target: Option<UpgradeTarget>,
    quality: Option<u32>,
    requirements: Option<[Option<UpgradeMaterialRequirement>; 3]>,
    inv: Seq<Option<SlotItem>>,
    ingredients: [usize; 3],
) -> Result<(int, Seq<u32>), UpgradeRefusal> {
    if !npc_in_reach {
        Err(UpgradeRefusal::NpcOutOfReach)
    } else {
        match target {
            None => Err(UpgradeRefusal::NotEquipment),
            Some(t) => if t.grade >= MAX_UPGRADE_GRADE {
                Err(UpgradeRefusal::MaxGrade)
            } else {
                match quality {
                    None => Err(UpgradeRefusal::UnknownItem),
                    Some(q) => match materials_check(requirements, inv, ingredients) {
                        Err(e) => Err(e),
                        Ok(qs) => Ok((spec_upgrade_price(q, t.grade), qs)),
                    },
                }
            },
        }
    }
}

/// Decides an upgrade at an NPC: `npc_in_reach` says the NPC is in the
/// crafter's zone and near enough, `target` is the equipment in the item slot,
/// `quality` the quality the item data gives it, `requirements` the material
/// rows for its next grade and `ingredients` the slot chosen for each row.
pub fn decide_npc_upgrade(
    npc_in_reach: bool,
    target: Option<UpgradeTarget>,
    quality: Option<u32>,
    requirements: Option<[Option<UpgradeMaterialRequirement>; 3]>,
    inventory: &Vec<Option<SlotItem>>,
    ingredients: [usize; 3],
) -> (r: Result<(Money, [u32; 3]), UpgradeRefusal>)
    requires
        npc_in_reach ==> match (target, quality) {
            (Some(t), Some(q)) => t.grade >= MAX_UPGRADE_GRADE || t.grade * (t.grade + 1) * q * (q
                + 20) <= i64::MAX,
            _ => true,
        },
    ensures
        match spec_npc_upgrade(npc_in_reach, target, quality, requirements, inventory@, ingredients) {
            Ok((price, q)) => r matches Ok((m, a)) && m.0 == price && a@ == q,
            Err(e) => r == Err::<(Money, [u32; 3]), UpgradeRefusal>(e),
        },
{
    if !npc_in_reach {
        return Err(UpgradeRefusal::NpcOutOfReach);
    }
    let t = match target {
        None => {
            return Err(UpgradeRefusal::NotEquipment);
        },
        Some(t) => t,
    };
    if t.grade >= MAX_UPGRADE_GRADE {
        return Err(UpgradeRefusal::MaxGrade);
    }
    let q = match quality {
        None => {
            return Err(UpgradeRefusal::UnknownItem);
        },
        Some(q) => q,
    };
    let price = upgrade_from_npc_price(q, t.grade);
    let quantities = match check_materials(requirements, inventory, ingredients) {
        Ok(qs) => qs,
        Err(e) => {
            return Err(e);
        },
    };
    Ok((price, quantities))
}

/// The item-making number of the skill that opens the disassembly window.
pub const DISASSEMBLE_MAKE_NUMBER: u32 = 41;

/// Why a disassembly request is ignored.
#[derive(Debug, Clone, Copy, PartialEq, Eq, Structural)]
pub enum DisassembleRefusal {
    /// No skill in the requested slot.
    NoSkill,
    /// The skill is not the one that opens the disassembly window.
    WrongSkill,
    /// Too little mana.
    NotEnoughMana,
    /// The NPC is not in this zone or too far away.
    NpcOutOfReach,
    /// The item slot is empty.
    NoItem,
    /// The item data does not know the item.
    UnknownItem,
    /// The item has no recipe to take apart.
    NoRecipe,
}

/// What the item data says of the item in the slot: its quality and the
/// number of its recipe.
#[derive(Debug, Clone, Copy, PartialEq, Eq, Structural)]
pub struct DisassembleItemData {
    pub quality: u32,
    pub craft_material: u32,
}

/// The recipe numbered `id` in `products`, when there is one.
pub open spec fn recipe_of(products: Seq<Option<ProductData>>, id: u32) -> Option<ProductData> {
    if id < products.len() {
        products[id as int]
    } else {
        None
    }
}

/// The answer to a disassembly with a skill, checked in this order: the
/// skill exists and opens the disassembly window; the crafter has the mana;
/// the slot holds an item; the item data knows it; it has a recipe. Gives the
/// mana it takes and the recipe.
pub open spec fn spec_skill_disassemble(
    skill: Option<UpgradeSkillData>,
    mp: i32,
    item: Option<ItemReference>,
    item_data: Option<DisassembleItemData>,
    products: Seq<Option<ProductData>>,
) -> Result<(i32, ProductData), DisassembleRefusal> {
    match skill {
        None => Err(DisassembleRefusal::NoSkill),
        Some(s) => if !s.is_create_window || s.item_make_number != DISASSEMBLE_MAKE_NUMBER {
            Err(DisassembleRefusal::WrongSkill)
        } else if mp < required_mp_of(s.use_ability@) {
            Err(DisassembleRefusal::NotEnoughMana)
        } else if item is None {
            Err(DisassembleRefusal::NoItem)
        } else {
            match item_data {
                None => Err(DisassembleRefusal::UnknownItem),
                Some(d) => match recipe_of(products, d.craft_material) {
                    None => Err(DisassembleRefusal::NoRecipe),
                    Some(p) => Ok((required_mp_of(s.use_ability@), p)),
                },
            }
        },
    }
}

/// Decides a disassembly with a skill: `skill` is the skill in the
/// requested slot, `mp` the crafter's mana, `item` the item in the slot and
/// `item_data` what the item data says of it. Gives the mana it takes and the
/// recipe whose materials come back.
pub fn decide_skill_disassemble<'a>(
    skill: Option<&UpgradeSkillData>,
    mp: i32,
    item: Option<ItemReference>,
    item_data: Option<DisassembleItemData>,
    products: &'a ProductDatabase,
) -> (r: Result<(i32, &'a ProductData), DisassembleRefusal>)
    ensures
        match spec_skill_disassemble(
            match skill {
                Some(s) => Some(*s),
                None => None,
            },
            mp,
            item,
            item_data,
            products@,
        ) {
            Ok((m, p)) => r matches Ok((rm, rp)) && rm == m && *rp == p,
            Err(e) => r == Err::<(i32, &ProductData), DisassembleRefusal>(e),
        },
{
    let s = match skill {
        None => {
            return Err(DisassembleRefusal::NoSkill);
        },
        Some(s) => s,
    };
    if !s.is_create_window || s.item_make_number != DISASSEMBLE_MAKE_NUMBER {
        return Err(DisassembleRefusal::WrongSkill);
    }
    let required_mp = manufacture_required_mp(s.use_ability.as_slice());
    if mp < required_mp {
        return Err(DisassembleRefusal::NotEnoughMana);
    }
    if item.is_none() {
        return Err(DisassembleRefusal::NoItem);
    }
    let d = match item_data {
        None => {
            return Err(DisassembleRefusal::UnknownItem);
        },
        Some(d) => d,
    };
    match products.get_product(d.craft_material) {
        None => Err(DisassembleRefusal::NoRecipe),
        Some(p) => Ok((required_mp, p)),
    }
}

/// The answer to a disassembly at an NPC before the fee is taken: the NPC
/// is within reach; the slot holds an item; the item data knows it. Gives the
/// fee, which depends on the item's quality.
pub open spec fn spec_npc_disassemble(
    npc_in_reach: bool,
    item: Option<ItemReference>,
    item_data: Option<DisassembleItemData>,
) -> Result<int, DisassembleRefusal> {
    if !npc_in_reach {
        Err(DisassembleRefusal::NpcOutOfReach)
    } else if item is None {
        Err(DisassembleRefusal::NoItem)
    } else {
        match item_data {
            None => Err(DisassembleRefusal::UnknownItem),
            Some(d) => Ok(d.quality * 10 + 20),
        }
    }
}

/// Decides a disassembly at an NPC up to its fee; once the fee is paid the
/// item's recipe (`craft_material`) says what comes back.
pub fn decide_npc_disassemble(
    npc_in_reach: bool,
    item: Option<ItemReference>,
    item_data: Option<DisassembleItemData>,
) -> (r: Result<Money, DisassembleRefusal>)
    ensures
        match spec_npc_disassemble(npc_in_reach, item, item_data) {
            Ok(fee) => r matches Ok(m) && m.0 == fee,
            Err(e) => r == Err::<Money, DisassembleRefusal>(e),
        },
{
    if !npc_in_reach {
        return Err(DisassembleRefusal::NpcOutOfReach);
    }
    if item.is_none() {
        return Err(DisassembleRefusal::NoItem);
    }
    match item_data {
        None => Err(DisassembleRefusal::UnknownItem),
        Some(d) => Ok(disassemble_from_npc_price(d.quality)),
    }
}

/// The quantity of a material that disassembly gives back for the random
/// value `roll`: `50 + roll % 26` percent of the recipe's quantity, rounded
/// down, but at least one.
pub open spec fn spec_returned_quantity(quantity: u32, roll: u32) -> u32 {
    let q = quantity * (50 + roll % 26) / 100;
    if q < 1 {
        1u32
    } else {
        q as u32
    }
}

/// What disassembly gives back: each material of the recipe, in order, with
/// the quantity its own random value (`rolls`, one per material) gives.
pub fn disassemble_returned_materials(product: &ProductData, rolls: &Vec<u32>) -> (r: Vec<
    ProductMaterial,
>)
    requires
        rolls@.len() == product.materials@.len(),
    ensures
        r@.len() == product.materials@.len(),
        forall|i: int|
            0 <= i < r@.len() ==> (#[trigger] r@[i]).item == product.materials@[i].item
                && r@[i].quantity == spec_returned_quantity(
                product.materials@[i].quantity,
                rolls@[i],
            ),
{
    let mut out: Vec<ProductMaterial> = Vec::new();
    let mut i: usize = 0;
    while i < product.materials.len()
        invariant
            i <= product.materials@.len(),
            rolls@.len() == product.materials@.len(),
            out@.len() == i,
            forall|k: int|
                0 <= k < i ==> (#[trigger] out@[k]).item == product.materials@[k].item
                    && out@[k].quantity == spec_returned_quantity(
                    product.materials@[k].quantity,
                    rolls@[k],
                ),
        decreases product.materials@.len() - i,
    {
        let m = product.materials[i];
        let pct: u64 = 50 + (rolls[i] % 26) as u64;
        assert(m.quantity as u64 * pct <= 0xffff_ffff * 75) by (nonlinear_arith)
            requires
                pct <= 75,
                m.quantity <= 0xffff_ffff,
        ;
        let q: u64 = (m.quantity as u64 * pct) / 100;
        assert(q <= 0xffff_ffff) by (nonlinear_arith)
            requires
                q == (m.quantity as u64 * pct) / 100,
                m.quantity as u64 * pct <= 0xffff_ffff * 75,
        ;
        let quantity: u32 = if q < 1 {
            1
        } else {
            q as u32
        };
        out.push(ProductMaterial { item: m.item, quantity });
        i = i + 1;
    }
    out
}

/// Disassembly gives back at least one of each material, at least half of
/// the recipe's quantity and at most three quarters of it (or one).
pub proof fn lemma_disassembly_returns_half_to_three_quarters(quantity: u32, roll: u32)
    ensures
        spec_returned_quantity(quantity, roll) >= 1,
        spec_returned_quantity(quantity, roll) >= quantity * 50 / 100,
        spec_returned_quantity(quantity, roll) <= quantity * 75 / 100 || spec_returned_quantity(
            quantity,
            roll,
        ) == 1,
{
    let p = 50 + roll % 26;
    assert(quantity * 50 <= quantity * p <= quantity * 75) by (nonlinear_arith)
        requires
            50 <= p <= 75,
    ;
    assert(quantity * 50 / 100 <= quantity * p / 100 <= quantity * 75 / 100) by (nonlinear_arith)
        requires
            quantity * 50 <= quantity * p <= quantity * 75,
    ;
}

/// Why a gem cannot be set into an equipment item.
#[derive(Debug, Clone, Copy, PartialEq, Eq, Structural)]
pub enum CraftInsertGemError {
    /// The item has no socket.
    NoSocket,
    /// The socket holds a gem already (gem numbers above 300).
    SocketFull,
}

/// An equipment item's socket: whether it has one, and the gem number in it.
#[derive(Debug, Clone, Copy, PartialEq, Eq, Structural)]
pub struct EquipmentSocket {
    pub has_socket: bool,
    pub gem: u16,
}

/// The answer to setting a gem: `None` (ignored) unless the slot holds a
/// gem item the item data calls a jewel and the equipment slot holds an item;
/// then an error when it has no socket or a full one, else the gem number
/// the socket takes (the gem's item number, kept to 16 bits).
pub open spec fn spec_insert_gem(
    gem: Option<ItemReference>,
    is_jewel: bool,
    socket: Option<EquipmentSocket>,
) -> Option<Result<u16, CraftInsertGemError>> {
    match gem {
        None => None,
        Some(g) => if !(g.item_type is Gem) || !is_jewel {
            None
        } else {
            match socket {
                None => None,
                Some(s) => if !s.has_socket {
                    Some(Err(CraftInsertGemError::NoSocket))
                } else if s.gem > 300 {
                    Some(Err(CraftInsertGemError::SocketFull))
                } else {
                    Some(Ok((g.item_number % 0x1_0000) as u16))
                },
            }
        },
    }
}

/// Decides setting the gem in an inventory slot (`gem`, with `is_jewel`
/// from the item data) into the item of an equipment slot (`socket`).
pub fn decide_insert_gem(
    gem: Option<ItemReference>,
    is_jewel: bool,
    socket: Option<EquipmentSocket>,
) -> (r: Option<Result<u16, CraftInsertGemError>>)
    ensures
        r == spec_insert_gem(gem, is_jewel, socket),
{
    let g = match gem {
        None => {
            return None;
        },
        Some(g) => g,
    };
    let is_gem = match g.item_type {
        crate::item_ref::ItemType::Gem => true,
        _ => false,
    };
    if !is_gem || !is_jewel {
        return None;
    }
    let s = match socket {
        None => {
            return None;
        },
        Some(s) => s,
    };
    if !s.has_socket {
        Some(Err(CraftInsertGemError::NoSocket))
    } else if s.gem > 300 {
        Some(Err(CraftInsertGemError::SocketFull))
    } else {
        Some(Ok((g.item_number % 0x1_0000) as u16))
    }
}

} // verus!
