//! Player-versus-player rules of zones.
use vstd::prelude::*;

verus! {

/// Zone flag telling clients that player killing is allowed.
pub const ZONE_FLAG_PK_ALLOWED: u32 = 0x1;

/// How characters may fight each other in a zone.
#[derive(Debug, Clone, Copy, PartialEq, Eq, Structural)]
pub enum ZonePvpMode {
    Disabled,
    FreeForAll,
    TeamBased,
}

/// The mode of a zone's PvP state from the zone table: 1 is free for all,
/// 2 and 11 are team based, anything else is disabled.
pub open spec fn spec_pvp_mode(pvp_state: u32) -> ZonePvpMode {
    if pvp_state == 1 {
        ZonePvpMode::FreeForAll
    } else if pvp_state == 2 || pvp_state == 11 {
        ZonePvpMode::TeamBased
    } else {
        ZonePvpMode::Disabled
    }
}

pub fn zone_pvp_mode_from_state(pvp_state: u32) -> (r: ZonePvpMode)
    ensures
        r == spec_pvp_mode(pvp_state),
{
    match pvp_state {
        1 => ZonePvpMode::FreeForAll,
        2 | 11 => ZonePvpMode::TeamBased,
        _ => ZonePvpMode::Disabled,
    }
}

/// A zone starts with PvP on when its mode is not disabled.
pub fn zone_is_initially_pvp_enabled(pvp_state: u32) -> (r: bool)
    ensures
        r == !(spec_pvp_mode(pvp_state) is Disabled),
{
    !matches!(zone_pvp_mode_from_state(pvp_state), ZonePvpMode::Disabled)
}

/// The global flags sent to a character joining a zone: player killing is
/// allowed when the zone has a PvP mode and PvP is currently on.
pub fn join_zone_global_flags(pvp_state: u32, pvp_enabled: bool) -> (r: u32)
    ensures
        r == (if !(spec_pvp_mode(pvp_state) is Disabled) && pvp_enabled {
            ZONE_FLAG_PK_ALLOWED
        } else {
            0
        }),
{
    let pvp_allowed = !matches!(zone_pvp_mode_from_state(pvp_state), ZonePvpMode::Disabled)
        && pvp_enabled;
    if pvp_allowed {
        ZONE_FLAG_PK_ALLOWED
    } else {
        0
    }
}

/// One character may attack another when PvP is on and the zone is free for
/// all, or team based with the two on different teams.
pub open spec fn spec_can_attack(pvp_state: u32, pvp_enabled: bool, attacker_team: u32, defender_team: u32) -> bool {
    pvp_enabled && match spec_pvp_mode(pvp_state) {
        ZonePvpMode::Disabled => false,
        ZonePvpMode::FreeForAll => true,
        ZonePvpMode::TeamBased => attacker_team != defender_team,
    }
}

pub fn can_character_attack_character(
    pvp_state: u32,
    pvp_enabled: bool,
    attacker_team_id: u32,
    defender_team_id: u32,
) -> (r: bool)
    ensures
        r == spec_can_attack(pvp_state, pvp_enabled, attacker_team_id, defender_team_id),
{
    if !pvp_enabled {
        return false;
    }
    match zone_pvp_mode_from_state(pvp_state) {
        ZonePvpMode::Disabled => false,
        ZonePvpMode::FreeForAll => true,
        ZonePvpMode::TeamBased => attacker_team_id != defender_team_id,
    }
}

/// Attacks between characters happen only where the join flags announce
/// player killing: an attack being allowed implies the flag is set.
pub proof fn lemma_attack_implies_pk_flag(pvp_state: u32, pvp_enabled: bool, a: u32, d: u32)
    requires
        spec_can_attack(pvp_state, pvp_enabled, a, d),
    ensures
        !(spec_pvp_mode(pvp_state) is Disabled) && pvp_enabled,
{
}


/// The zone whose join trigger only makes sense during its event.
pub const EVENT_ONLY_PVP_ZONE_ID: u16 = 8;

/// Joining a zone fires its join trigger, except in the event-only PvP map
/// (zone 8), whose trigger would send players straight back out.
pub fn should_fire_zone_join_trigger(zone_id: u16) -> (r: bool)
    ensures
        r == (zone_id != EVENT_ONLY_PVP_ZONE_ID),
{
    zone_id != EVENT_ONLY_PVP_ZONE_ID
}

} // verus!
