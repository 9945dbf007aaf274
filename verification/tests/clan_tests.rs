use rose_data_core::clan::{
    can_change_member_rank, clan_max_members, clan_member_position_from_rank,
    clan_member_position_rank, get_default_clan_upgrade_points, get_demoted_position,
    get_promoted_position, ClanLevel, ClanPoints, ClanUniqueId,
};
use rose_data_core::clan::ClanMemberPosition::{
    Commander, DeputyMaster, Junior, Master, Penalty, Senior, Veteran,
};
use rose_data_core::clan_rules::{
    decide_clan_create, decide_clan_upgrade, ClanCreateError, ClanUpgradeRequest, ClanUpgradeResult,
    CLAN_CREATE_COST,
};
use rose_data_core::config::GameConfig;

#[test]
fn default_upgrade_points_by_level() {
    assert_eq!(get_default_clan_upgrade_points(1), None);
    assert_eq!(get_default_clan_upgrade_points(2), Some(ClanPoints(1_000)));
    assert_eq!(get_default_clan_upgrade_points(5), Some(ClanPoints(10_000)));
    assert_eq!(get_default_clan_upgrade_points(7), Some(ClanPoints(35_000)));
    assert_eq!(get_default_clan_upgrade_points(8), None);
}

#[test]
fn config_defaults_follow_clan_table() {
    let config = GameConfig::default();
    assert!(config.enable_npc_spawns);
    assert!(config.enable_monster_spawns);
    for level in 0..10 {
        assert_eq!(config.clan_upgrade_points_required(level), get_default_clan_upgrade_points(level));
    }
    let mut custom = GameConfig::default();
    custom.clan_upgrade_requirements[2] = 700;
    assert_eq!(custom.clan_upgrade_points_required(2), Some(ClanPoints(700)));
}

#[test]
fn member_limit_grows_with_level() {
    let limits: Vec<usize> = (1..=8).map(|l| clan_max_members(ClanLevel::new(l).unwrap())).collect();
    assert_eq!(limits, vec![15, 20, 25, 30, 36, 43, 50, 50]);
    assert!(ClanLevel::new(0).is_none());
    assert_eq!(ClanLevel::new(3).unwrap().get(), 3);
    assert!(ClanUniqueId::new(0).is_none());
    assert_eq!(ClanUniqueId::new(12).unwrap().get(), 12);
}

#[test]
fn ranks_and_positions_correspond() {
    for rank in 0..=6u8 {
        let position = clan_member_position_from_rank(rank).unwrap();
        assert_eq!(clan_member_position_rank(position), rank);
    }
    assert_eq!(clan_member_position_from_rank(7), None);
}

#[test]
fn only_masters_and_deputies_change_lower_ranks() {
    assert!(can_change_member_rank(Master, DeputyMaster));
    assert!(can_change_member_rank(DeputyMaster, Commander));
    assert!(!can_change_member_rank(DeputyMaster, DeputyMaster));
    assert!(!can_change_member_rank(Commander, Junior));
    assert_eq!(get_promoted_position(Master, Commander), Some(DeputyMaster));
    assert_eq!(get_promoted_position(Master, DeputyMaster), None);
    assert_eq!(get_promoted_position(DeputyMaster, Commander), None);
    assert_eq!(get_promoted_position(DeputyMaster, Junior), Some(Senior));
    assert_eq!(get_demoted_position(Master, Junior), Some(Penalty));
    assert_eq!(get_demoted_position(Master, Penalty), None);
    assert_eq!(get_demoted_position(Senior, Penalty), None);
}

#[test]
fn demote_then_promote_restores_position() {
    for target in [Junior, Senior, Veteran, Commander] {
        let down = get_demoted_position(DeputyMaster, target).unwrap();
        assert_eq!(get_promoted_position(DeputyMaster, down), Some(target));
    }
}

#[test]
fn clan_create_takes_cost_from_founder_with_enough_money() {
    let taken = decide_clan_create(false, false, 30, false, 1_500_000).unwrap();
    assert_eq!(taken, CLAN_CREATE_COST);
    assert_eq!(1_500_000 - taken, 500_000);
}

#[test]
fn clan_create_refuses_founder_without_money_and_takes_nothing() {
    assert_eq!(
        decide_clan_create(false, false, 30, false, 999_999),
        Err(ClanCreateError::UnmetCondition)
    );
}

#[test]
fn clan_create_checks_in_order() {
    assert_eq!(decide_clan_create(true, true, 1, true, 0), Err(ClanCreateError::Failed));
    assert_eq!(decide_clan_create(false, false, 29, true, 0), Err(ClanCreateError::UnmetCondition));
    assert_eq!(decide_clan_create(false, false, 50, true, 5_000_000), Err(ClanCreateError::NameExists));
    assert_eq!(decide_clan_create(false, true, 1, false, 0), Ok(0));
}

fn upgrade_request(level: u32, points: u64) -> ClanUpgradeRequest {
    ClanUpgradeRequest {
        has_clan: true,
        npc_found: true,
        npc_in_range: true,
        clan_found: true,
        is_master: true,
        level: ClanLevel::new(level).unwrap(),
        points: ClanPoints(points),
    }
}

#[test]
fn clan_upgrade_succeeds_at_required_points() {
    let mut config = GameConfig::default();
    config.clan_upgrade_requirements[2] = 700;
    let level = decide_clan_upgrade(&config, &upgrade_request(1, 700)).unwrap();
    assert_eq!(level.get(), 2);
}

#[test]
fn clan_upgrade_refuses_below_required_points() {
    let mut config = GameConfig::default();
    config.clan_upgrade_requirements[2] = 701;
    assert_eq!(
        decide_clan_upgrade(&config, &upgrade_request(1, 700)).map(|l| l.get()),
        Err(ClanUpgradeResult::InsufficientPoints)
    );
}

#[test]
fn clan_upgrade_other_refusals() {
    let config = GameConfig::default();
    let mut req = upgrade_request(7, 1_000_000);
    assert_eq!(decide_clan_upgrade(&config, &req).map(|l| l.get()), Err(ClanUpgradeResult::MaxLevel));
    req = upgrade_request(3, 1_000_000);
    req.is_master = false;
    assert_eq!(decide_clan_upgrade(&config, &req).map(|l| l.get()), Err(ClanUpgradeResult::NoPermission));
    req.npc_in_range = false;
    assert_eq!(decide_clan_upgrade(&config, &req).map(|l| l.get()), Err(ClanUpgradeResult::NpcTooFar));
    req.npc_found = false;
    assert_eq!(decide_clan_upgrade(&config, &req).map(|l| l.get()), Err(ClanUpgradeResult::InvalidNpc));
    req.has_clan = false;
    assert_eq!(decide_clan_upgrade(&config, &req).map(|l| l.get()), Err(ClanUpgradeResult::NoClan));
    assert_eq!(decide_clan_upgrade(&config, &upgrade_request(3, 5_000)).map(|l| l.get()), Ok(4));
}

#[test]
fn clan_create_updates_creator_money_after_success() {
    // a level 30 founder holding 1,500,000 zuly
    let money: i64 = 1_500_000;
    let taken = decide_clan_create(false, false, 30, false, money).unwrap();
    assert_eq!(money - taken, 500_000);
}

#[test]
fn clan_create_with_insufficient_money_keeps_balance_and_sends_error() {
    let money: i64 = 999_999;
    let result = decide_clan_create(false, false, 30, false, money);
    assert!(matches!(result, Err(ClanCreateError::UnmetCondition)));
    let balance = match result {
        Ok(taken) => money - taken,
        Err(_) => money,
    };
    assert_eq!(balance, 999_999);
}

#[test]
fn clan_upgrade_succeeds_at_required_points_threshold() {
    // founded with the requirements skipped: nothing is taken
    assert_eq!(decide_clan_create(false, true, 30, false, 1_500_000), Ok(0));
    let config = GameConfig::default();
    let required_points = get_default_clan_upgrade_points(2).unwrap();
    let request = upgrade_request(1, required_points.0);
    let level = decide_clan_upgrade(&config, &request).unwrap();
    assert_eq!(level.get(), 2);
    // raising the level spends no points
    assert_eq!(request.points.0, required_points.0);
}

#[test]
fn clan_upgrade_rejects_when_points_are_insufficient() {
    let config = GameConfig::default();
    let required_points = get_default_clan_upgrade_points(2).unwrap();
    let request = upgrade_request(1, required_points.0 - 1);
    let result = decide_clan_upgrade(&config, &request);
    assert!(matches!(result, Err(ClanUpgradeResult::InsufficientPoints)));
    let level = match result {
        Ok(l) => l.get(),
        Err(_) => request.level.get(),
    };
    assert_eq!(level, 1);
}
