//! Clans: identifiers, levels, upgrade costs, member limits and ranks.
use vstd::prelude::*;

verus! {

/// The highest clan level.
pub const MAX_CLAN_LEVEL: u32 = 7;

/// A clan's unique, non-zero identifier.
#[derive(Debug, Clone, Copy, PartialEq, Eq, Structural)]
pub struct ClanUniqueId {
    id: u32,
}

impl ClanUniqueId {
    pub closed spec fn spec_get(self) -> u32 {
        self.id
    }

    /// The identifier `n`, unless it is zero.
    pub fn new(n: u32) -> (r: Option<ClanUniqueId>)
        ensures
            n == 0 ==> r is None,
            n != 0 ==> (r matches Some(c) && c.spec_get() == n),
    {
        if n == 0 {
            None
        } else {
            Some(ClanUniqueId { id: n })
        }
    }

    pub fn get(&self) -> (r: u32)
        ensures
            r == self.spec_get(),
    {
        self.id
    }
}

/// A clan level, never zero.
#[derive(Debug, Clone, Copy, PartialEq, Eq, Structural)]
pub struct ClanLevel {
    level: u32,
}

impl ClanLevel {
    pub closed spec fn spec_get(self) -> u32 {
        self.level
    }

    /// The level `n`, unless it is zero.
    pub fn new(n: u32) -> (r: Option<ClanLevel>)
        ensures
            n == 0 ==> r is None,
            n != 0 ==> (r matches Some(c) && c.spec_get() == n),
    {
        if n == 0 {
            None
        } else {
            Some(ClanLevel { level: n })
        }
    }

    pub fn get(&self) -> (r: u32)
        ensures
            r == self.spec_get(),
    {
        self.level
    }
}

/// Clan points.
#[derive(Debug, Clone, Copy, PartialEq, Eq, Structural)]
pub struct ClanPoints(pub u64);

/// A clan's emblem: a premade pair of background and foreground (both
/// non-zero in the game) or a custom image known by its CRC-16.
#[derive(Debug, Clone, Copy, PartialEq, Eq, Structural)]
pub enum ClanMark {
    Premade { background: u16, foreground: u16 },
    Custom { crc16: u16 },
}

/// Points needed to reach `next_level`, for levels 2 to 7.
pub open spec fn default_upgrade_points(next_level: int) -> u64 {
    if next_level == 2 {
        1_000
    } else if next_level == 3 {
        2_500
    } else if next_level == 4 {
        5_000
    } else if next_level == 5 {
        10_000
    } else if next_level == 6 {
        20_000
    } else if next_level == 7 {
        35_000
    } else {
        0
    }
}

/// The points a clan needs to reach `next_level` by default; none outside 2 to 7.
pub fn get_default_clan_upgrade_points(next_level: u32) -> (r: Option<ClanPoints>)
    ensures
        2 <= next_level <= MAX_CLAN_LEVEL ==> r == Some(
            ClanPoints(default_upgrade_points(next_level as int)),
        ),
        !(2 <= next_level <= MAX_CLAN_LEVEL) ==> r is None,
{
    let points: u64 = match next_level {
        2 => 1_000,
        3 => 2_500,
        4 => 5_000,
        5 => 10_000,
        6 => 20_000,
        7 => 35_000,
        _ => {
            return None;
        },
    };
    Some(ClanPoints(points))
}

/// The members a clan of this level can hold: 15, 15, 20, 25, 30, 36, 43, then 50.
pub open spec fn spec_clan_max_members(level: u32) -> usize {
    if level <= 1 {
        15
    } else if level == 2 {
        20
    } else if level == 3 {
        25
    } else if level == 4 {
        30
    } else if level == 5 {
        36
    } else if level == 6 {
        43
    } else {
        50
    }
}

/// The members a clan of this level can hold.
pub fn clan_max_members(level: ClanLevel) -> (r: usize)
    ensures
        r == spec_clan_max_members(level.spec_get()),
{
    match level.get() {
        0 | 1 => 15,
        2 => 20,
        3 => 25,
        4 => 30,
        5 => 36,
        6 => 43,
        _ => 50,
    }
}

/// A member's position in a clan, from lowest to highest.
#[derive(Debug, Clone, Copy, PartialEq, Eq, Structural)]
pub enum ClanMemberPosition {
    Penalty,
    Junior,
    Senior,
    Veteran,
    Commander,
    DeputyMaster,
    Master,
}

/// The rank of a position: 0 for penalty up to 6 for the master.
pub open spec fn spec_rank(position: ClanMemberPosition) -> u8 {
    match position {
        ClanMemberPosition::Penalty => 0,
        ClanMemberPosition::Junior => 1,
        ClanMemberPosition::Senior => 2,
        ClanMemberPosition::Veteran => 3,
        ClanMemberPosition::Commander => 4,
        ClanMemberPosition::DeputyMaster => 5,
        ClanMemberPosition::Master => 6,
    }
}

/// The position of rank `rank`, for ranks 0 to 6.
pub open spec fn spec_position_of_rank(rank: u8) -> Option<ClanMemberPosition> {
    if rank == 0 {
        Some(ClanMemberPosition::Penalty)
    } else if rank == 1 {
        Some(ClanMemberPosition::Junior)
    } else if rank == 2 {
        Some(ClanMemberPosition::Senior)
    } else if rank == 3 {
        Some(ClanMemberPosition::Veteran)
    } else if rank == 4 {
        Some(ClanMemberPosition::Commander)
    } else if rank == 5 {
        Some(ClanMemberPosition::DeputyMaster)
    } else if rank == 6 {
        Some(ClanMemberPosition::Master)
    } else {
        None
    }
}

pub fn clan_member_position_rank(position: ClanMemberPosition) -> (r: u8)
    ensures
        r == spec_rank(position),
{
    match position {
        ClanMemberPosition::Penalty => 0,
        ClanMemberPosition::Junior => 1,
        ClanMemberPosition::Senior => 2,
        ClanMemberPosition::Veteran => 3,
        ClanMemberPosition::Commander => 4,
        ClanMemberPosition::DeputyMaster => 5,
        ClanMemberPosition::Master => 6,
    }
}

pub fn clan_member_position_from_rank(rank: u8) -> (r: Option<ClanMemberPosition>)
    ensures
        r == spec_position_of_rank(rank),
{
    match rank {
        0 => Some(ClanMemberPosition::Penalty),
        1 => Some(ClanMemberPosition::Junior),
        2 => Some(ClanMemberPosition::Senior),
        3 => Some(ClanMemberPosition::Veteran),
        4 => Some(ClanMemberPosition::Commander),
        5 => Some(ClanMemberPosition::DeputyMaster),
        6 => Some(ClanMemberPosition::Master),
        _ => None,
    }
}

/// The master or a deputy may change the rank of a member ranked below them.
pub open spec fn spec_can_change_rank(changer: ClanMemberPosition, target: ClanMemberPosition) -> bool {
    (changer is Master || changer is DeputyMaster) && spec_rank(changer) > spec_rank(target)
}

pub fn can_change_member_rank(
    changer_position: ClanMemberPosition,
    target_position: ClanMemberPosition,
) -> (r: bool)
    ensures
        r == spec_can_change_rank(changer_position, target_position),
{
    matches!(changer_position, ClanMemberPosition::Master | ClanMemberPosition::DeputyMaster)
        && clan_member_position_rank(changer_position) > clan_member_position_rank(
        target_position,
    )
}

/// Promotion moves a member one rank up, never up to the changer's own rank.
pub fn get_promoted_position(
    changer_position: ClanMemberPosition,
    target_position: ClanMemberPosition,
) -> (r: Option<ClanMemberPosition>)
    ensures
        (spec_can_change_rank(changer_position, target_position) && spec_rank(target_position) + 1
            < spec_rank(changer_position)) ==> r == spec_position_of_rank(
            (spec_rank(target_position) + 1) as u8,
        ),
        !(spec_can_change_rank(changer_position, target_position) && spec_rank(target_position)
            + 1 < spec_rank(changer_position)) ==> r is None,
{
    if !can_change_member_rank(changer_position, target_position) {
        return None;
    }
    let changer_rank = clan_member_position_rank(changer_position);
    let target_rank = clan_member_position_rank(target_position);
    let promoted_rank = target_rank.checked_add(1)?;
    if promoted_rank >= changer_rank {
        return None;
    }
    clan_member_position_from_rank(promoted_rank)
}

/// Demotion moves a member one rank down, not below penalty.
pub fn get_demoted_position(
    changer_position: ClanMemberPosition,
    target_position: ClanMemberPosition,
) -> (r: Option<ClanMemberPosition>)
    ensures
        (spec_can_change_rank(changer_position, target_position) && spec_rank(target_position)
            > 0) ==> r == spec_position_of_rank((spec_rank(target_position) - 1) as u8),
        !(spec_can_change_rank(changer_position, target_position) && spec_rank(target_position)
            > 0) ==> r is None,
{
    if !can_change_member_rank(changer_position, target_position) {
        return None;
    }
    let demoted_rank = clan_member_position_rank(target_position).checked_sub(1)?;
    clan_member_position_from_rank(demoted_rank)
}

/// Rank and position are each other's inverse: every position has a rank, and
/// each rank from 0 to 6 names exactly one position.
pub proof fn lemma_rank_round_trip(position: ClanMemberPosition, rank: u8)
    ensures
        spec_position_of_rank(spec_rank(position)) == Some(position),
        spec_rank(position) <= 6,
        rank <= 6 ==> (spec_position_of_rank(rank) matches Some(p) && spec_rank(p) == rank),
        rank > 6 ==> spec_position_of_rank(rank) is None,
{
}

/// Demoting a member and promoting them again by the same changer gives back
/// their position.
pub proof fn lemma_demote_then_promote(changer: ClanMemberPosition, target: ClanMemberPosition)
    requires
        spec_can_change_rank(changer, target),
        spec_rank(target) > 0,
    ensures
        ({
            let d = spec_position_of_rank((spec_rank(target) - 1) as u8).unwrap();
            &&& spec_can_change_rank(changer, d)
            &&& spec_rank(d) + 1 < spec_rank(changer)
            &&& spec_position_of_rank((spec_rank(d) + 1) as u8) == Some(target)
        }),
{
}

/// A promotion always lands strictly below the changer, so promoting can never
/// create a second master or deputy above the one who promotes.
pub proof fn lemma_promotion_stays_below_changer(
    changer: ClanMemberPosition,
    target: ClanMemberPosition,
)
    requires
        spec_can_change_rank(changer, target),
        spec_rank(target) + 1 < spec_rank(changer),
    ensures
        spec_position_of_rank((spec_rank(target) + 1) as u8) matches Some(p) && spec_rank(p)
            < spec_rank(changer) && spec_rank(p) == spec_rank(target) + 1,
{
}

} // verus!
