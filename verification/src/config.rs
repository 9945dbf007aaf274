//! Server settings.
use vstd::prelude::*;

use crate::clan::{default_upgrade_points, get_default_clan_upgrade_points, ClanPoints, MAX_CLAN_LEVEL};

verus! {

/// Server settings: which spawns run and what clan upgrades cost.
pub struct GameConfig {
    pub enable_npc_spawns: bool,
    pub enable_monster_spawns: bool,
    /// Points needed to reach each clan level, by level (0 and 1 unused).
    pub clan_upgrade_requirements: [u64; 8],
}

impl GameConfig {
    /// Spawns on, and the default clan upgrade costs.
    pub fn default() -> (r: GameConfig)
        ensures
            r.enable_npc_spawns,
            r.enable_monster_spawns,
            forall|l: int| 0 <= l < 8 ==> #[trigger] r.clan_upgrade_requirements@[l]
                == default_upgrade_points(l),
    {
        let mut clan_upgrade_requirements = [0u64; 8];
        let mut next_level: u32 = 2;
        while next_level <= MAX_CLAN_LEVEL
            invariant
                2 <= next_level <= 8,
                forall|l: int| 0 <= l < 8 ==> #[trigger] clan_upgrade_requirements@[l] == (if l
                    < next_level {
                    default_upgrade_points(l)
                } else {
                    0
                }),
            decreases 8 - next_level,
        {
            let points = match get_default_clan_upgrade_points(next_level) {
                Some(p) => p.0,
                None => 0,
            };
            clan_upgrade_requirements[next_level as usize] = points;
            next_level = next_level + 1;
        }
        GameConfig {
            enable_monster_spawns: true,
            enable_npc_spawns: true,
            clan_upgrade_requirements,
        }
    }

    /// Points needed to reach `next_level`, for levels 2 to 7.
    pub fn clan_upgrade_points_required(&self, next_level: u32) -> (r: Option<ClanPoints>)
        ensures
            2 <= next_level <= MAX_CLAN_LEVEL ==> r == Some(
                ClanPoints(self.clan_upgrade_requirements@[next_level as int]),
            ),
            !(2 <= next_level <= MAX_CLAN_LEVEL) ==> r is None,
    {
        if !(2 <= next_level && next_level <= MAX_CLAN_LEVEL) {
            return None;
        }
        Some(ClanPoints(self.clan_upgrade_requirements[next_level as usize]))
    }
}

} // verus!
