//! What a clan request is answered: whether a character may found a clan and
//! what it costs, and whether a clan may rise a level.
use vstd::prelude::*;

use crate::clan::{ClanLevel, ClanPoints, MAX_CLAN_LEVEL};
use crate::config::GameConfig;

verus! {

/// Why a clan could not be founded.
#[derive(Debug, Clone, Copy, PartialEq, Eq, Structural)]
pub enum ClanCreateError {
    /// The founder is already in a clan, or the clan could not be stored.
    Failed,
    /// The founder's level or money falls short.
    UnmetCondition,
    /// A clan of that name exists.
    NameExists,
}

/// The level a founder needs.
pub const CLAN_CREATE_MIN_LEVEL: u32 = 30;

/// The money founding a clan takes.
pub const CLAN_CREATE_COST: i64 = 1_000_000;

/// The answer to a request to found a clan, checked in this order: a founder
/// already in a clan fails; unless requirements are skipped, a founder below
/// the level needed is refused; a taken name is refused; unless requirements
/// are skipped, a founder without the money is refused. Otherwise the clan is
/// founded, for the money it costs (nothing when requirements are skipped).
pub open spec fn spec_clan_create(
    in_clan: bool,
    skip_requirements: bool,
    level: u32,
    name_exists: bool,
    money: i64,
) -> Result<i64, ClanCreateError> {
    if in_clan {
        Err(ClanCreateError::Failed)
    } else if !skip_requirements && level < CLAN_CREATE_MIN_LEVEL {
        Err(ClanCreateError::UnmetCondition)
    } else if name_exists {
        Err(ClanCreateError::NameExists)
    } else if skip_requirements {
        Ok(0)
    } else if money < CLAN_CREATE_COST {
        Err(ClanCreateError::UnmetCondition)
    } else {
        Ok(CLAN_CREATE_COST)
    }
}

/// Answers a request to found a clan: the money to take from the founder, or
/// why the clan is not founded. `name_exists` says whether the name is taken.
pub fn decide_clan_create(
    in_clan: bool,
    skip_requirements: bool,
    level: u32,
    name_exists: bool,
    money: i64,
) -> (r: Result<i64, ClanCreateError>)
    ensures
        r == spec_clan_create(in_clan, skip_requirements, level, name_exists, money),
{
    if in_clan {
        return Err(ClanCreateError::Failed);
    }
    if !skip_requirements && level < CLAN_CREATE_MIN_LEVEL {
        return Err(ClanCreateError::UnmetCondition);
    }
    if name_exists {
        return Err(ClanCreateError::NameExists);
    }
    if skip_requirements {
        return Ok(0);
    }
    if money < CLAN_CREATE_COST {
        return Err(ClanCreateError::UnmetCondition);
    }
    Ok(CLAN_CREATE_COST)
}

/// Founding never leaves the founder with less than nothing: what is taken
/// is at most what the founder has (when the founder has anything), and a
/// refused request takes nothing.
pub proof fn lemma_clan_create_takes_what_is_there(
    in_clan: bool,
    skip_requirements: bool,
    level: u32,
    name_exists: bool,
    money: i64,
)
    requires
        money >= 0,
    ensures
        spec_clan_create(in_clan, skip_requirements, level, name_exists, money) matches Ok(taken)
            ==> 0 <= taken <= money && money - taken >= 0,
{
}

/// How a request to raise a clan's level is answered.
#[derive(Debug, Clone, Copy, PartialEq, Eq, Structural)]
pub enum ClanUpgradeResult {
    Success,
    NoClan,
    InvalidNpc,
    NpcTooFar,
    NoPermission,
    MaxLevel,
    InsufficientPoints,
}

/// What the server knows of a request to raise a clan's level.
#[derive(Debug, Clone, Copy, PartialEq, Eq, Structural)]
pub struct ClanUpgradeRequest {
    /// The requester is in a clan.
    pub has_clan: bool,
    /// The NPC the request is made at exists.
    pub npc_found: bool,
    /// The requester stands in the NPC's zone and near enough to it.
    pub npc_in_range: bool,
    /// The requester's clan exists.
    pub clan_found: bool,
    /// The requester is the clan's master.
    pub is_master: bool,
    pub level: ClanLevel,
    pub points: ClanPoints,
}

/// The answer to a request to raise a clan's level, checked in this order:
/// no clan, no such NPC, NPC too far, clan gone, not the master, at the top
/// level (or no cost for the next level), too few points; else the next level.
pub open spec fn spec_clan_upgrade(
    requirements: Seq<u64>,
    req: ClanUpgradeRequest,
) -> Result<u32, ClanUpgradeResult> {
    let level = req.level.spec_get();
    if !req.has_clan {
        Err(ClanUpgradeResult::NoClan)
    } else if !req.npc_found {
        Err(ClanUpgradeResult::InvalidNpc)
    } else if !req.npc_in_range {
        Err(ClanUpgradeResult::NpcTooFar)
    } else if !req.clan_found {
        Err(ClanUpgradeResult::NoClan)
    } else if !req.is_master {
        Err(ClanUpgradeResult::NoPermission)
    } else if level >= MAX_CLAN_LEVEL {
        Err(ClanUpgradeResult::MaxLevel)
    } else if level + 1 < 2 {
        Err(ClanUpgradeResult::MaxLevel)
    } else if req.points.0 < requirements[level + 1] {
        Err(ClanUpgradeResult::InsufficientPoints)
    } else {
        Ok((level + 1) as u32)
    }
}

/// Answers a request to raise a clan's level: the clan's new level, or why
/// it stays.
pub fn decide_clan_upgrade(config: &GameConfig, req: &ClanUpgradeRequest) -> (r: Result<ClanLevel, ClanUpgradeResult>)
    ensures
        match spec_clan_upgrade(config.clan_upgrade_requirements@, *req) {
            Ok(l) => r matches Ok(c) && c.spec_get() == l,
            Err(e) => r == Err::<ClanLevel, ClanUpgradeResult>(e),
        },
{
    if !req.has_clan {
        return Err(ClanUpgradeResult::NoClan);
    }
    if !req.npc_found {
        return Err(ClanUpgradeResult::InvalidNpc);
    }
    if !req.npc_in_range {
        return Err(ClanUpgradeResult::NpcTooFar);
    }
    if !req.clan_found {
        return Err(ClanUpgradeResult::NoClan);
    }
    if !req.is_master {
        return Err(ClanUpgradeResult::NoPermission);
    }
    let level = req.level.get();
    if level >= MAX_CLAN_LEVEL {
        return Err(ClanUpgradeResult::MaxLevel);
    }
    let next_level = level + 1;
    let required = match config.clan_upgrade_points_required(next_level) {
        Some(p) => p,
        None => {
            return Err(ClanUpgradeResult::MaxLevel);
        },
    };
    if req.points.0 < required.0 {
        return Err(ClanUpgradeResult::InsufficientPoints);
    }
    match ClanLevel::new(next_level) {
        Some(l) => Ok(l),
        None => Err(ClanUpgradeResult::MaxLevel),
    }
}

/// A clan rises exactly when its master asks at an NPC in range, it is below
/// the top level and it has at least the points the next level costs; it
/// then rises by one level.
pub proof fn lemma_clan_upgrade_rule(requirements: Seq<u64>, req: ClanUpgradeRequest)
    requires
        requirements.len() == 8,
        req.level.spec_get() >= 1,
    ensures
        (spec_clan_upgrade(requirements, req) is Ok) <==> (req.has_clan && req.npc_found
            && req.npc_in_range && req.clan_found && req.is_master && req.level.spec_get()
            < MAX_CLAN_LEVEL && req.points.0 >= requirements[req.level.spec_get() + 1]),
        spec_clan_upgrade(requirements, req) matches Ok(l) ==> l == req.level.spec_get() + 1 && l
            <= MAX_CLAN_LEVEL,
{
}

} // verus!
