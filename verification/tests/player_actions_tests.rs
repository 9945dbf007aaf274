use rose_data_core::player_actions::{increase_basic_stat, BasicStatType, BasicStats};
use rose_data_core::entity::Position;
use rose_data_core::player_actions::joining_state;
use rose_data_core::command::{CommandData, MoveMode};
use rose_data_core::crafting::Money;
use rose_data_core::player_actions::{drop_money, toggle_drive, toggle_run, toggle_sit};

#[test]
fn run_toggle_switches_walk_and_run_only() {
    assert_eq!(toggle_run(MoveMode::Walk), Some(MoveMode::Run));
    assert_eq!(toggle_run(MoveMode::Run), Some(MoveMode::Walk));
    assert_eq!(toggle_run(MoveMode::Drive), None);
}

#[test]
fn drive_toggle_needs_body_engine_and_legs() {
    assert_eq!(toggle_drive(MoveMode::Walk, true, true, true), Some(MoveMode::Drive));
    assert_eq!(toggle_drive(MoveMode::Run, true, true, true), Some(MoveMode::Drive));
    assert_eq!(toggle_drive(MoveMode::Run, true, false, true), None);
    assert_eq!(toggle_drive(MoveMode::Walk, false, true, true), None);
    assert_eq!(toggle_drive(MoveMode::Walk, true, true, false), None);
    assert_eq!(toggle_drive(MoveMode::Drive, false, false, false), Some(MoveMode::Run));
}

#[test]
fn dropping_money_takes_at_most_what_is_held() {
    assert_eq!(drop_money(Money(100), 30), (Money(30), Money(70)));
    assert_eq!(drop_money(Money(100), 100), (Money(100), Money(0)));
    assert_eq!(drop_money(Money(100), 250), (Money(100), Money(0)));
    assert_eq!(drop_money(Money(0), 0), (Money(0), Money(0)));
    // the totals always add up
    let (dropped, left) = drop_money(Money(12_345), 678);
    assert_eq!(dropped.0 + left.0, 12_345);
}

#[test]
fn sit_toggle_stands_up_only_the_sitting() {
    assert!(matches!(toggle_sit(&CommandData::Sit).command, Some(CommandData::Standing)));
    assert!(matches!(
        toggle_sit(&CommandData::Stop { send_message: false }).command,
        Some(CommandData::Sitting)
    ));
    assert!(matches!(toggle_sit(&CommandData::Sitting).command, Some(CommandData::Sitting)));
    assert!(!toggle_sit(&CommandData::Sit).has_sent_server_message);
}

#[test]
fn dead_characters_join_at_their_revive_point_with_three_tenths() {
    let here = Position { x: 1, y: 2, z: 3, zone_id: 4 };
    let revive = Position { x: 9, y: 9, z: 9, zone_id: 1 };
    assert_eq!(joining_state(0, 7, here, 1005, 333, revive), (301, 99, revive));
    assert_eq!(joining_state(12, 7, here, 1005, 333, revive), (12, 7, here));
}

#[test]
fn basic_stats_rise_only_for_fewer_points_than_held() {
    let base = BasicStats { strength: 10, dexterity: 11, intelligence: 12, concentration: 13, charm: 14, sense: 15 };
    let mut stats = base;
    let mut points = 5u32;
    assert_eq!(increase_basic_stat(&mut stats, &mut points, BasicStatType::Charm, Some(4)), Some(15));
    assert_eq!((stats.charm, points), (15, 1));
    assert_eq!(increase_basic_stat(&mut stats, &mut points, BasicStatType::Sense, Some(1)), None);
    assert_eq!(increase_basic_stat(&mut stats, &mut points, BasicStatType::Sense, None), None);
    assert_eq!((stats.sense, points), (15, 1));
    assert_eq!(stats.strength, base.strength);
}
