//! What the server knows of the things in its world: their ids, kinds,
//! places and teams, and the components that the rules below read.
use vstd::prelude::*;

verus! {

/// A thing of the server's world, by its index.
#[derive(Debug, Clone, Copy, PartialEq, Eq, Structural)]
pub struct Entity {
    pub index: u32,
}

impl Entity {
    pub fn from_raw(index: u32) -> (r: Entity)
        ensures
            r.index == index,
    {
        Entity { index }
    }
}

/// The id by which clients know an entity.
#[derive(Debug, Clone, Copy, PartialEq, Eq, Structural)]
pub struct ClientEntityId(pub usize);

/// What kind of thing a client entity is.
#[derive(Debug, Clone, Copy, PartialEq, Eq, Structural)]
pub enum ClientEntityType {
    Character,
    Monster,
    Npc,
    ItemDrop,
}

/// An entity as clients see it: its kind, id and zone.
#[derive(Debug, Clone, Copy, PartialEq, Eq, Structural)]
pub struct ClientEntity {
    pub entity_type: ClientEntityType,
    pub id: ClientEntityId,
    pub zone_id: u16,
}

impl ClientEntity {
    pub fn new(entity_type: ClientEntityType, id: ClientEntityId, zone_id: u16) -> (r: ClientEntity)
        ensures
            r == (ClientEntity { entity_type, id, zone_id }),
    {
        ClientEntity { entity_type, id, zone_id }
    }
}

/// Where an entity stands: x, y and z as raw `f32` bits, and its zone.
#[derive(Debug, Clone, Copy, PartialEq, Eq, Structural)]
pub struct Position {
    pub x: u32,
    pub y: u32,
    pub z: u32,
    pub zone_id: u16,
}

/// The team an entity fights for.
#[derive(Debug, Clone, Copy, PartialEq, Eq, Structural)]
pub struct Team {
    pub id: u32,
}

/// The team of NPCs, which nothing may attack.
pub const DEFAULT_NPC_TEAM_ID: u32 = 1;

/// The team that characters start in.
pub const DEFAULT_CHARACTER_TEAM_ID: u32 = 2;

/// The team of monsters.
pub const DEFAULT_MONSTER_TEAM_ID: u32 = 100;

impl Team {
    pub fn default_character() -> (r: Team)
        ensures
            r.id == DEFAULT_CHARACTER_TEAM_ID,
    {
        Team { id: DEFAULT_CHARACTER_TEAM_ID }
    }

    pub fn default_monster() -> (r: Team)
        ensures
            r.id == DEFAULT_MONSTER_TEAM_ID,
    {
        Team { id: DEFAULT_MONSTER_TEAM_ID }
    }

    pub fn default_npc() -> (r: Team)
        ensures
            r.id == DEFAULT_NPC_TEAM_ID,
    {
        Team { id: DEFAULT_NPC_TEAM_ID }
    }
}

/// Bonus to the rates at which health and mana recover.
#[derive(Debug, Clone, Copy, PartialEq, Eq, Structural)]
pub struct RecoveryRateBonus {
    pub hp_bonus: i32,
    pub mp_bonus: i32,
}

impl RecoveryRateBonus {
    pub fn new(hp_bonus: i32, mp_bonus: i32) -> (r: RecoveryRateBonus)
        ensures
            r.hp_bonus == hp_bonus,
            r.mp_bonus == mp_bonus,
    {
        RecoveryRateBonus { hp_bonus, mp_bonus }
    }
}

impl Default for RecoveryRateBonus {
    fn default() -> (r: RecoveryRateBonus)
        ensures
            r.hp_bonus == 0 && r.mp_bonus == 0,
    {
        RecoveryRateBonus { hp_bonus: 0, mp_bonus: 0 }
    }
}

/// The summon points that a summoned monster takes from its owner.
#[derive(Debug, Clone, Copy, PartialEq, Eq, Structural)]
pub struct SummonPointCost {
    pub points: u32,
}

impl SummonPointCost {
    pub fn new(points: u32) -> (r: SummonPointCost)
        ensures
            r.points == points,
    {
        SummonPointCost { points }
    }
}

/// The summon points that an owner's summons use.
#[derive(Debug, Clone, Copy, PartialEq, Eq, Structural)]
pub struct SummonUsage {
    pub used_points: u32,
}

impl Default for SummonUsage {
    fn default() -> (r: SummonUsage)
        ensures
            r.used_points == 0,
    {
        SummonUsage { used_points: 0 }
    }
}

} // verus!
