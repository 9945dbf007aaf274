//! Prices and chances of crafting at NPCs.
use vstd::prelude::*;

use crate::item_ref::{ItemReference, ItemType};

verus! {

/// An amount of zuly.
#[derive(Debug, Clone, Copy, PartialEq, Eq, Structural)]
pub struct Money(pub i64);

/// The abilities that a skill can cost or give.
#[derive(Debug, Clone, Copy, PartialEq, Eq, Structural)]
pub enum AbilityType {
    Health,
    Mana,
    RecoverHealth,
    RecoverMana,
    /// Any other ability, by its number in the game data.
    Other(u16),
}

/// `x / d` rounded toward zero, as integer division does in the game.
pub open spec fn div_toward_zero(x: int, d: int) -> int {
    if x >= 0 {
        x / d
    } else {
        -((-x) / d)
    }
}

/// The mana value of the first mana cost in `use_ability`.
pub open spec fn first_mana_cost(use_ability: Seq<(AbilityType, i32)>) -> Option<i32>
    decreases use_ability.len(),
{
    if use_ability.len() == 0 {
        None
    } else if use_ability[0].0 is Mana {
        Some(use_ability[0].1)
    } else {
        first_mana_cost(use_ability.drop_first())
    }
}

/// The mana a manufacturing skill uses: its first mana cost, not below 0, or 0
/// when it costs no mana.
pub fn manufacture_required_mp(use_ability: &[(AbilityType, i32)]) -> (r: i32)
    ensures
        r == match first_mana_cost(use_ability@) {
            Some(v) => if v > 0 {
                v
            } else {
                0
            },
            None => 0,
        },
{
    let mut i: usize = 0;
    assert(use_ability@.skip(0) =~= use_ability@);
    while i < use_ability.len()
        invariant
            i <= use_ability@.len(),
            first_mana_cost(use_ability@) == first_mana_cost(use_ability@.skip(i as int)),
        decreases use_ability@.len() - i,
    {
        let (ability_type, value) = use_ability[i];
        assert(use_ability@.skip(i as int)[0] == use_ability@[i as int]);
        assert(use_ability@.skip(i as int).drop_first() =~= use_ability@.skip(i + 1));
        if let AbilityType::Mana = ability_type {
            return if value > 0 {
                value
            } else {
                0
            };
        }
        i = i + 1;
    }
    0
}

/// The level gap a crafter has over a recipe, as the game keeps it in an `i32`.
pub open spec fn level_gap(skill_level: u32, required_skill_level: u32) -> i32 {
    if skill_level > required_skill_level {
        (skill_level - required_skill_level) as i32
    } else {
        0
    }
}

/// The success chance before clamping: 92 plus two per level of gap, scaled
/// by the world craft rate in percent.
pub open spec fn raw_success_chance(skill_level: u32, required_skill_level: u32, rate: i32) -> int {
    div_toward_zero((92 + 2 * level_gap(skill_level, required_skill_level)) * rate, 100)
}

/// The success chance held between 60 and 99.
pub open spec fn spec_success_chance(skill_level: u32, required_skill_level: u32, rate: i32) -> int {
    if raw_success_chance(skill_level, required_skill_level, rate) < 60 {
        60
    } else if raw_success_chance(skill_level, required_skill_level, rate) > 99 {
        99
    } else {
        raw_success_chance(skill_level, required_skill_level, rate)
    }
}

/// With a world craft rate that is not negative, a higher skill level never
/// lowers the chance, as long as the level gap fits the `i32` the game keeps
/// it in (beyond that the gap wraps to a negative number).
pub proof fn lemma_success_chance_rises_with_skill(low: u32, high: u32, required: u32, rate: i32)
    requires
        low <= high,
        rate >= 0,
        high - required <= i32::MAX,
    ensures
        spec_success_chance(low, required, rate) <= spec_success_chance(high, required, rate),
{
    let g1 = level_gap(low, required) as int;
    let g2 = level_gap(high, required) as int;
    assert(0 <= g1 <= g2);
    let b1 = 92 + 2 * g1;
    let b2 = 92 + 2 * g2;
    assert(0 <= b1 * rate <= b2 * rate) by (nonlinear_arith)
        requires
            0 <= b1 <= b2,
            rate >= 0,
    ;
    assert((b1 * rate) / 100 <= (b2 * rate) / 100) by (nonlinear_arith)
        requires
            0 <= b1 * rate <= b2 * rate,
    ;
}

/// The chance in percent that manufacturing succeeds, between 60 and 99.
pub fn manufacture_success_chance(skill_level: u32, required_skill_level: u32, world_craft_rate: i32) -> (r: i32)
    requires
        i32::MIN <= 2 * level_gap(skill_level, required_skill_level),
        i32::MIN <= 92 + 2 * level_gap(skill_level, required_skill_level) <= i32::MAX,
        i32::MIN <= (92 + 2 * level_gap(skill_level, required_skill_level)) * world_craft_rate
            <= i32::MAX,
    ensures
        r == (if raw_success_chance(skill_level, required_skill_level, world_craft_rate) < 60 {
            60
        } else if raw_success_chance(skill_level, required_skill_level, world_craft_rate) > 99 {
            99
        } else {
            raw_success_chance(skill_level, required_skill_level, world_craft_rate)
        }),
        r == spec_success_chance(skill_level, required_skill_level, world_craft_rate),
        60 <= r <= 99,
{
    let level_gap = skill_level.saturating_sub(required_skill_level) as i32;
    let base = 92 + level_gap * 2;
    let product = base * world_craft_rate;
    let scaled = if product >= 0 {
        product / 100
    } else {
        -((-(product as i64)) / 100) as i32
    };
    if scaled < 60 {
        60
    } else if scaled > 99 {
        99
    } else {
        scaled
    }
}

/// What an NPC charges to disassemble an item of this quality: ten per point and twenty more.
pub fn disassemble_from_npc_price(item_quality: u32) -> (r: Money)
    ensures
        r.0 == item_quality * 10 + 20,
{
    Money(item_quality as i64 * 10 + 20)
}

/// The price an NPC charges to upgrade an item to the next grade:
/// `grade * (grade + 1) * quality * (quality + 20) / 5`.
pub open spec fn spec_upgrade_price(item_quality: u32, item_grade: u8) -> int {
    (item_grade * (item_grade + 1) * item_quality * (item_quality + 20)) / 5
}

/// What an NPC charges to upgrade an item of this quality and grade.
pub fn upgrade_from_npc_price(item_quality: u32, item_grade: u8) -> (r: Money)
    requires
        item_grade * (item_grade + 1) * item_quality * (item_quality + 20) <= i64::MAX,
    ensures
        r.0 == spec_upgrade_price(item_quality, item_grade),
{
    let q = item_quality as i64;
    let g = item_grade as i64;
    assert(0 <= g * (g + 1) <= 65280) by (nonlinear_arith)
        requires
            0 <= g <= 255,
    ;
    assert(0 <= g * (g + 1) * q) by (nonlinear_arith)
        requires
            0 <= g <= 255,
            0 <= q,
    ;
    assert(g * (g + 1) * q <= g * (g + 1) * q * (q + 20)) by (nonlinear_arith)
        requires
            0 <= g * (g + 1) * q,
            0 <= q,
    ;
    Money(g * (g + 1) * q * (q + 20) / 5)
}


/// The product row that lists what upgrading an item to the next grade
/// takes: weapons from row 1, other equipment from row 11, plus the grade;
/// items that are not equipment cannot be upgraded.
pub fn resolve_upgrade_product_row_id(target_item: ItemReference, grade: u8) -> (r: Option<u32>)
    ensures
        !target_item.item_type.spec_is_equipment() ==> r is None,
        target_item.item_type.spec_is_equipment() ==> r == Some(
            (if target_item.item_type == ItemType::Weapon {
                1int
            } else {
                11int
            } + grade) as u32,
        ),
{
    if !target_item.item_type.is_equipment_item() {
        return None;
    }
    let base_row: u32 = match target_item.item_type {
        ItemType::Weapon => 1,
        _ => 11,
    };
    Some(base_row + grade as u32)
}

} // verus!
