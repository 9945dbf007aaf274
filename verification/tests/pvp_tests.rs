use rose_data_core::pvp::{
    can_character_attack_character, join_zone_global_flags, should_fire_zone_join_trigger,
    zone_is_initially_pvp_enabled, zone_pvp_mode_from_state, ZonePvpMode, ZONE_FLAG_PK_ALLOWED,
};
use rose_data_core::entity::Entity;
use rose_data_core::spawn::{NpcId, ZoneId};
use rose_data_core::zone_list::ZoneList;

#[test]
fn zone_pvp_mode_mapping_matches_spec() {
    assert_eq!(zone_pvp_mode_from_state(0), ZonePvpMode::Disabled);
    assert_eq!(zone_pvp_mode_from_state(1), ZonePvpMode::FreeForAll);
    assert_eq!(zone_pvp_mode_from_state(2), ZonePvpMode::TeamBased);
    assert_eq!(zone_pvp_mode_from_state(11), ZonePvpMode::TeamBased);
    assert_eq!(zone_pvp_mode_from_state(999), ZonePvpMode::Disabled);
}

#[test]
fn pvp_allow_matrix_matches_rules() {
    struct Case {
        zone_state: u32,
        pvp_enabled: bool,
        attacker_team: u32,
        defender_team: u32,
        expected: bool,
    }

    let cases = [
        Case { zone_state: 0, pvp_enabled: true, attacker_team: 2, defender_team: 3, expected: false },
        Case { zone_state: 1, pvp_enabled: false, attacker_team: 2, defender_team: 2, expected: false },
        Case { zone_state: 1, pvp_enabled: true, attacker_team: 2, defender_team: 2, expected: true },
        Case { zone_state: 2, pvp_enabled: true, attacker_team: 2, defender_team: 2, expected: false },
        Case { zone_state: 2, pvp_enabled: true, attacker_team: 2, defender_team: 3, expected: true },
        Case { zone_state: 11, pvp_enabled: true, attacker_team: 7, defender_team: 8, expected: true },
    ];
    for case in cases {
        assert_eq!(
            can_character_attack_character(
                case.zone_state,
                case.pvp_enabled,
                case.attacker_team,
                case.defender_team
            ),
            case.expected
        );
    }
}

#[test]
fn global_flag_constant_is_stable() {
    assert_eq!(ZONE_FLAG_PK_ALLOWED, 0x1);
}

#[test]
fn zone_pvp_state_defaults_to_false_for_missing_zone() {
    let zone_list = ZoneList::new();
    let zone_id = ZoneId::new(1).unwrap();
    assert!(!zone_list.get_pvp_enabled(zone_id));
}

#[test]
fn zone_pvp_state_can_be_toggled() {
    let mut zone_list = ZoneList::new();
    let zone_id = ZoneId::new(1).unwrap();

    zone_list.add_zone(zone_id, false);
    assert!(!zone_list.get_pvp_enabled(zone_id));

    assert!(zone_list.set_pvp_enabled(zone_id, true));
    assert!(zone_list.get_pvp_enabled(zone_id));

    assert!(zone_list.set_pvp_enabled(zone_id, false));
    assert!(!zone_list.get_pvp_enabled(zone_id));
}

#[test]
fn pvp_join_flags_follow_mode_and_switch() {
    assert!(!zone_is_initially_pvp_enabled(0));
    assert!(zone_is_initially_pvp_enabled(2));
    assert_eq!(join_zone_global_flags(1, true), ZONE_FLAG_PK_ALLOWED);
    assert_eq!(join_zone_global_flags(1, false), 0);
    assert_eq!(join_zone_global_flags(5, true), 0);
}

#[test]
fn event_zone_skips_join_trigger() {
    assert!(!should_fire_zone_join_trigger(8));
    assert!(should_fire_zone_join_trigger(1));
}

#[test]
fn zone_list_tracks_spawns_events_and_npcs() {
    let mut zone_list = ZoneList::new();
    let zone = ZoneId::new(3).unwrap();
    let other = ZoneId::new(4).unwrap();
    assert!(!zone_list.set_monster_spawns_enabled(zone, false));
    zone_list.add_zone(zone, true);
    assert!(zone_list.get_monster_spawns_enabled(zone));
    assert!(zone_list.set_monster_spawns_enabled(zone, false));
    assert!(!zone_list.get_monster_spawns_enabled(zone));
    assert!(zone_list.get_pvp_enabled(zone));

    zone_list.add_event_object(zone, 5, 1, 2, Entity::from_raw(9));
    zone_list.add_event_object(other, 5, 1, 2, Entity::from_raw(10));
    assert_eq!(zone_list.find_event_object(zone, 5, 1, 2), Some(Entity::from_raw(9)));
    assert_eq!(zone_list.find_event_object(zone, 5, 1, 3), None);
    assert_eq!(zone_list.find_event_object(other, 5, 1, 2), None);
    zone_list.add_event_object(zone, 5, 1, 2, Entity::from_raw(11));
    assert_eq!(zone_list.find_event_object(zone, 5, 1, 2), Some(Entity::from_raw(11)));

    let npc = NpcId::new(77).unwrap();
    assert_eq!(zone_list.find_npc(npc), None);
    zone_list.add_npc(npc, Entity::from_raw(12));
    assert_eq!(zone_list.find_npc(npc), Some(Entity::from_raw(12)));
}
