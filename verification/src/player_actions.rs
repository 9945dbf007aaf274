//! What a player's simple requests change: sitting and standing, switching
//! between walking, running and driving, and dropping money.
use vstd::prelude::*;

use crate::command::{CommandData, MoveMode, NextCommand};
use crate::crafting::{div_toward_zero, Money};
use crate::entity::Position;

verus! {

/// Sitting down or standing up: one who sits stands up, anyone else sits down.
pub fn toggle_sit(current: &CommandData) -> (r: NextCommand)
    ensures
        current is Sit ==> r.command == Some(CommandData::Standing),
        !(current is Sit) ==> r.command == Some(CommandData::Sitting),
        !r.has_sent_server_message,
{
    if let CommandData::Sit = current {
        NextCommand::with_standing()
    } else {
        NextCommand::with_sitting()
    }
}

/// Switching between walking and running: walking becomes running and
/// running walking; while driving nothing changes (`None`).
pub fn toggle_run(mode: MoveMode) -> (r: Option<MoveMode>)
    ensures
        r == match mode {
            MoveMode::Walk => Some(MoveMode::Run),
            MoveMode::Run => Some(MoveMode::Walk),
            MoveMode::Drive => None::<MoveMode>,
        },
{
    match mode {
        MoveMode::Walk => Some(MoveMode::Run),
        MoveMode::Run => Some(MoveMode::Walk),
        MoveMode::Drive => None,
    }
}

/// Switching driving on or off. On foot, driving starts only with a body,
/// an engine and legs fitted to the vehicle (starting wears the engine and
/// starts the driving time); driving ends in running (and ends the driving
/// time). `None` when nothing changes.
pub fn toggle_drive(mode: MoveMode, has_body: bool, has_engine: bool, has_leg: bool) -> (r: Option<
    MoveMode,
>)
    ensures
        r == match mode {
            MoveMode::Drive => Some(MoveMode::Run),
            _ => if has_body && has_engine && has_leg {
                Some(MoveMode::Drive)
            } else {
                None::<MoveMode>
            },
        },
{
    match mode {
        MoveMode::Walk | MoveMode::Run => {
            if !has_body || !has_engine || !has_leg {
                None
            } else {
                Some(MoveMode::Drive)
            }
        },
        MoveMode::Drive => Some(MoveMode::Run),
    }
}

/// Dropping `quantity` zuly from `held`: what is dropped and what is left.
/// Asking for more than is held drops all of it and leaves nothing.
pub open spec fn spec_drop_money(held: Money, quantity: u32) -> (Money, Money) {
    if quantity > held.0 {
        (held, Money(0))
    } else {
        (Money(quantity as i64), Money((held.0 - quantity) as i64))
    }
}

/// Drops `quantity` zuly from `held`; anything is put on the ground only
/// when what is dropped is above zero.
pub fn drop_money(held: Money, quantity: u32) -> (r: (Money, Money))
    ensures
        r == spec_drop_money(held, quantity),
{
    let asked = quantity as i64;
    if asked > held.0 {
        (held, Money(0))
    } else {
        (Money(asked), Money(held.0 - asked))
    }
}

/// Dropping money neither creates nor loses any: what is dropped and what
/// is left add up to what was held, and no more than was asked for is dropped.
pub proof fn lemma_drop_money_conserves(held: Money, quantity: u32)
    ensures
        spec_drop_money(held, quantity).0.0 + spec_drop_money(held, quantity).1.0 == held.0,
        spec_drop_money(held, quantity).0.0 <= quantity,
{
}

/// The health, mana and place a character joins the game with: one saved
/// dead (no health) comes back at its revive point with three tenths of its
/// maximum health and mana (rounded toward zero); anyone else as saved.
pub open spec fn spec_joining_state(
    hp: i32,
    mp: i32,
    position: Position,
    max_health: i32,
    max_mana: i32,
    revive_position: Position,
) -> (i32, i32, Position) {
    if hp == 0 {
        (
            div_toward_zero(3 * max_health, 10) as i32,
            div_toward_zero(3 * max_mana, 10) as i32,
            revive_position,
        )
    } else {
        (hp, mp, position)
    }
}

/// The state a character joins the game with.
pub fn joining_state(
    hp: i32,
    mp: i32,
    position: Position,
    max_health: i32,
    max_mana: i32,
    revive_position: Position,
) -> (r: (i32, i32, Position))
    requires
        hp == 0 ==> i32::MIN <= 3 * max_health <= i32::MAX && i32::MIN <= 3 * max_mana <= i32::MAX,
    ensures
        r == spec_joining_state(hp, mp, position, max_health, max_mana, revive_position),
{
    if hp == 0 {
        let h = 3 * max_health;
        let m = 3 * max_mana;
        (h / 10, m / 10, revive_position)
    } else {
        (hp, mp, position)
    }
}

/// The six basic stats.
#[derive(Debug, Clone, Copy, PartialEq, Eq, Structural)]
pub enum BasicStatType {
    Strength,
    Dexterity,
    Intelligence,
    Concentration,
    Charm,
    Sense,
}

/// A character's basic stats.
#[derive(Debug, Clone, Copy, PartialEq, Eq, Structural)]
pub struct BasicStats {
    pub strength: i32,
    pub dexterity: i32,
    pub intelligence: i32,
    pub concentration: i32,
    pub charm: i32,
    pub sense: i32,
}

/// The value of one stat.
pub open spec fn stat_value(s: BasicStats, t: BasicStatType) -> i32 {
    match t {
        BasicStatType::Strength => s.strength,
        BasicStatType::Dexterity => s.dexterity,
        BasicStatType::Intelligence => s.intelligence,
        BasicStatType::Concentration => s.concentration,
        BasicStatType::Charm => s.charm,
        BasicStatType::Sense => s.sense,
    }
}

/// The stats with one of them set to `v`.
pub open spec fn with_stat(s: BasicStats, t: BasicStatType, v: i32) -> BasicStats {
    match t {
        BasicStatType::Strength => BasicStats { strength: v, ..s },
        BasicStatType::Dexterity => BasicStats { dexterity: v, ..s },
        BasicStatType::Intelligence => BasicStats { intelligence: v, ..s },
        BasicStatType::Concentration => BasicStats { concentration: v, ..s },
        BasicStatType::Charm => BasicStats { charm: v, ..s },
        BasicStatType::Sense => BasicStats { sense: v, ..s },
    }
}

/// Raises a basic stat by one for `cost` stat points (`None` when the stat
/// cannot be raised): only when the cost is below the points held. Gives the
/// new value (told to the client), or `None` and no change.
pub fn increase_basic_stat(
    stats: &mut BasicStats,
    points: &mut u32,
    stat: BasicStatType,
    cost: Option<u32>,
) -> (r: Option<i32>)
    requires
        stat_value(*old(stats), stat) < i32::MAX,
    ensures
        (cost matches Some(c) && c < *old(points)) ==> r == Some((stat_value(*old(stats), stat) + 1) as i32)
            && *final(stats) == with_stat(*old(stats), stat, (stat_value(*old(stats), stat) + 1) as i32)
            && *final(points) == *old(points) - cost.unwrap(),
        !(cost matches Some(c) && c < *old(points)) ==> r is None && *final(stats) == *old(stats)
            && *final(points) == *old(points),
{
    let c = match cost {
        None => {
            return None;
        },
        Some(c) => c,
    };
    if c >= *points {
        return None;
    }
    *points = *points - c;
    let v = match stat {
        BasicStatType::Strength => {
            stats.strength = stats.strength + 1;
            stats.strength
        },
        BasicStatType::Dexterity => {
            stats.dexterity = stats.dexterity + 1;
            stats.dexterity
        },
        BasicStatType::Intelligence => {
            stats.intelligence = stats.intelligence + 1;
            stats.intelligence
        },
        BasicStatType::Concentration => {
            stats.concentration = stats.concentration + 1;
            stats.concentration
        },
        BasicStatType::Charm => {
            stats.charm = stats.charm + 1;
            stats.charm
        },
        BasicStatType::Sense => {
            stats.sense = stats.sense + 1;
            stats.sense
        },
    };
    Some(v)
}

} // verus!
