use std::collections::VecDeque;

use rose_data_core::entity::Entity;
use rose_data_core::reload::{LiveSpawnReloadJob, LiveSpawnReloadQueue};
use rose_data_core::spawn::{
    build_spawn_queue, live_reload_spawn_delay, Duration, MonsterSpawnPoint, NpcId, ZoneId,
    ZoneMonsterSpawnPoint,
};

fn test_zone_spawn_point(interval: u32) -> ZoneMonsterSpawnPoint {
    ZoneMonsterSpawnPoint {
        basic_spawns: vec![(NpcId::new(1).unwrap(), 1)],
        tactic_spawns: Vec::new(),
        interval,
        limit_count: 1,
        range: 0,
        tactic_points: 100,
    }
}

fn test_spawn_point() -> MonsterSpawnPoint {
    MonsterSpawnPoint {
        basic_spawns: vec![(NpcId::new(1).unwrap(), 1)],
        tactic_spawns: Vec::new(),
        interval: Duration::from_secs(30),
        limit_count: 1,
        range: 0,
        tactic_points: 100,
        time_since_last_check: Duration::from_secs(30),
        current_tactics_value: 1,
        num_alive_monsters: 0,
    }
}

#[test]
fn monster_spawn_point_starts_ready_for_first_spawn_check() {
    let spawn_point = MonsterSpawnPoint::from(&test_zone_spawn_point(30));

    assert_eq!(spawn_point.interval, Duration::from_secs(30));
    assert_eq!(spawn_point.time_since_last_check, spawn_point.interval);
    assert_eq!(spawn_point.current_tactics_value, 1);
}

#[test]
fn monster_spawn_point_first_check_is_immediate_then_waits_for_interval() {
    let mut spawn_point = MonsterSpawnPoint::from(&test_zone_spawn_point(30));

    assert!(spawn_point.advance_spawn_check(Duration::zero()));
    assert_eq!(spawn_point.time_since_last_check, Duration::zero());

    assert!(!spawn_point.advance_spawn_check(Duration::from_secs(29)));
    assert!(spawn_point.advance_spawn_check(Duration::from_secs(1)));
}

#[test]
fn applying_spawn_data_preserves_runtime_alive_count_until_reset() {
    let mut spawn_point = MonsterSpawnPoint::from(&test_zone_spawn_point(30));
    spawn_point.num_alive_monsters = 3;

    let mut updated = test_zone_spawn_point(10);
    updated.limit_count = 5;
    updated.range = 25;
    spawn_point.apply_spawn_data(&updated);

    assert_eq!(spawn_point.num_alive_monsters, 3);
    assert_eq!(spawn_point.interval, Duration::from_secs(10));
    assert_eq!(spawn_point.limit_count, 5);
    assert_eq!(spawn_point.range, 25);

    spawn_point.reset_for_live_reload();

    assert_eq!(spawn_point.num_alive_monsters, 0);
    assert_eq!(spawn_point.current_tactics_value, 1);
    assert_eq!(spawn_point.time_since_last_check, Duration::from_secs(10));
}

#[test]
fn live_reload_reset_can_stagger_spawn_eligibility() {
    let mut spawn_point = MonsterSpawnPoint::from(&test_zone_spawn_point(30));

    spawn_point.reset_for_live_reload_with_delay(Duration::from_secs(2));

    assert!(!spawn_point.advance_spawn_check(Duration::from_secs(1)));
    assert!(spawn_point.advance_spawn_check(Duration::from_secs(1)));
    assert_eq!(spawn_point.num_alive_monsters, 0);
    assert_eq!(spawn_point.current_tactics_value, 1);
}

#[test]
fn first_spawn_cycle_produces_a_monster_without_waiting() {
    let mut spawn_point = test_spawn_point();

    assert!(spawn_point.advance_spawn_check(Duration::zero()));

    let spawn_queue = build_spawn_queue(&mut spawn_point);

    assert_eq!(spawn_queue, vec![(NpcId::new(1).unwrap(), 1)]);
    assert_eq!(spawn_point.current_tactics_value, 13);
}

#[test]
fn spawn_queue_does_not_over_spawn_past_limit_count() {
    let mut spawn_point = test_spawn_point();
    spawn_point.current_tactics_value = 10;
    spawn_point.num_alive_monsters = 1;

    let spawn_queue = build_spawn_queue(&mut spawn_point);

    assert!(spawn_queue.is_empty());
    assert_eq!(spawn_point.current_tactics_value, 9);
}

#[test]
fn live_reload_queue_blocks_old_spawn_entities() {
    let spawn_entity = Entity::from_raw(42);
    let old_spawn_entities = vec![spawn_entity];
    let mut queue = LiveSpawnReloadQueue::new();

    queue.push(LiveSpawnReloadJob::new(
        ZoneId::new(1).unwrap(),
        2,
        3,
        Vec::new(),
        old_spawn_entities,
        VecDeque::new(),
    ));

    assert!(queue.is_spawn_point_blocked(spawn_entity));
    assert!(!queue.is_spawn_point_blocked(Entity::from_raw(43)));
}

#[test]
fn live_reload_spawn_delay_staggers_across_window() {
    assert_eq!(live_reload_spawn_delay(0, 4), Duration::zero());
    assert_eq!(live_reload_spawn_delay(2, 4), Duration::from_secs(1));
    assert!(live_reload_spawn_delay(3, 4) < Duration::from_secs(2));
}

#[test]
fn live_reload_queue_is_first_in_first_out() {
    let mut queue = LiveSpawnReloadQueue::new();
    assert!(queue.front_mut().is_none());
    assert!(queue.pop_front().is_none());
    queue.push(LiveSpawnReloadJob::new(ZoneId::new(1).unwrap(), 1, 1, Vec::new(), Vec::new(), VecDeque::new()));
    queue.push(LiveSpawnReloadJob::new(ZoneId::new(2).unwrap(), 5, 6, Vec::new(), Vec::new(), VecDeque::new()));
    if let Some(job) = queue.front_mut() {
        job.pending_monsters.push_back(Entity::from_raw(1));
    }
    let first = queue.pop_front().unwrap();
    assert_eq!(first.block_x, 1);
    assert_eq!(first.pending_monsters.len(), 1);
    let second = queue.pop_front().unwrap();
    assert_eq!(second.block_x, 5);
    assert!(queue.pop_front().is_none());
}

#[test]
fn single_spawn_reloads_without_delay() {
    assert_eq!(live_reload_spawn_delay(0, 1), Duration::zero());
    assert_eq!(live_reload_spawn_delay(0, 0), Duration::zero());
    assert_eq!(live_reload_spawn_delay(1, 2), Duration::from_secs(1));
}

#[test]
fn durations_carry_nanoseconds_and_saturate_like_std() {
    let a = Duration::from_nanos(1_500_000_000);
    let b = Duration::from_nanos(600_000_000);
    assert_eq!(a.saturating_add(b).as_nanos(), 2_100_000_000);
    assert_eq!(a.saturating_sub(b).as_nanos(), 900_000_000);
    assert_eq!(b.saturating_sub(a).as_nanos(), 0);
    let long = Duration::from_secs(u64::MAX);
    assert_eq!(long.as_nanos(), u64::MAX as u128 * 1_000_000_000);
    assert_eq!(
        long.saturating_add(Duration::from_secs(1)).as_nanos(),
        u64::MAX as u128 * 1_000_000_000 + 999_999_999
    );
    assert_eq!(a.min(b), b);
}
