use rose_data_core::bonfire::{
    default_bonfire_tiers, get_bonfire_bonus_from_skill, get_bonfire_effect_radius, is_bonfire_skill,
    is_bonfire_target, select_bonfire_tier, bonfire_heal, BonfireAura,
};
use rose_data_core::spawn::Duration;
use rose_data_core::crafting::AbilityType;
use rose_data_core::entity::Entity;

#[test]
fn bonfire_skill_family_matches_upgrades() {
    assert!(is_bonfire_skill(1161, None));
    assert!(is_bonfire_skill(1166, Some(1161)));
    assert!(!is_bonfire_skill(1166, None));
}

struct Snapshot {
    entity: Entity,
    party: Option<Entity>,
    zone_id: u16,
    position: (f32, f32),
    is_alive: bool,
}

struct Tier {
    min_nearby_allies: usize,
    search_radius: f32,
    hp_bonus: i32,
}

fn nearby(tier: &Tier, owner: Entity, owner_party: Option<Entity>, zone_id: u16, at: (f32, f32), characters: &[Snapshot]) -> usize {
    characters
        .iter()
        .filter(|c| {
            let dx = c.position.0 - at.0;
            let dy = c.position.1 - at.1;
            c.is_alive
                && c.zone_id == zone_id
                && is_bonfire_target(c.entity, c.party, owner, owner_party)
                && dx * dx + dy * dy <= tier.search_radius * tier.search_radius
        })
        .count()
}

fn select(tiers: &[Tier], owner: Entity, owner_party: Option<Entity>, characters: &[Snapshot]) -> Option<i32> {
    let mins: Vec<usize> = tiers.iter().map(|t| t.min_nearby_allies).collect();
    let counts: Vec<usize> = tiers.iter().map(|t| nearby(t, owner, owner_party, 1, (0.0, 0.0), characters)).collect();
    select_bonfire_tier(&mins, &counts).map(|i| tiers[i].hp_bonus)
}

#[test]
fn bonfire_selects_stronger_tier_for_smaller_party() {
    let owner_entity = Entity::from_raw(1);
    let party_entity = Entity::from_raw(2);
    let tiers = vec![
        Tier { min_nearby_allies: 0, search_radius: 1000.0, hp_bonus: 30 },
        Tier { min_nearby_allies: 2, search_radius: 1200.0, hp_bonus: 25 },
        Tier { min_nearby_allies: 4, search_radius: 1200.0, hp_bonus: 20 },
    ];

    let solo = vec![Snapshot { entity: owner_entity, party: Some(party_entity), zone_id: 1, position: (0.0, 0.0), is_alive: true }];
    assert_eq!(select(&tiers, owner_entity, Some(party_entity), &solo), Some(30));

    let group = vec![
        Snapshot { entity: owner_entity, party: Some(party_entity), zone_id: 1, position: (0.0, 0.0), is_alive: true },
        Snapshot { entity: Entity::from_raw(3), party: Some(party_entity), zone_id: 1, position: (100.0, 0.0), is_alive: true },
    ];
    assert_eq!(select(&tiers, owner_entity, Some(party_entity), &group), Some(25));
}

#[test]
fn bonfire_bonus_takes_largest_heal_times_three() {
    let abilities = vec![
        Some((AbilityType::Health, 10)),
        Some((AbilityType::RecoverHealth, 15)),
        None,
        Some((AbilityType::Mana, 4)),
        Some((AbilityType::Other(3), 99)),
    ];
    assert_eq!(get_bonfire_bonus_from_skill(&abilities), (45, 12));
    assert_eq!(get_bonfire_bonus_from_skill(&vec![Some((AbilityType::Mana, i32::MAX))]), (0, i32::MAX));
}

#[test]
fn bonfire_warms_owner_and_party_only() {
    let owner = Entity::from_raw(1);
    let party = Entity::from_raw(2);
    assert!(is_bonfire_target(owner, None, owner, None));
    assert!(is_bonfire_target(Entity::from_raw(5), Some(party), owner, Some(party)));
    assert!(!is_bonfire_target(Entity::from_raw(5), None, owner, None));
    assert!(!is_bonfire_target(Entity::from_raw(5), Some(party), owner, None));
}

#[test]
fn bonfire_radius_prefers_scope_then_cast_range() {
    assert_eq!(get_bonfire_effect_radius(350, 900), 350);
    assert_eq!(get_bonfire_effect_radius(0, 900), 900);
    assert_eq!(get_bonfire_effect_radius(0, 0), 600);
    assert_eq!(get_bonfire_effect_radius(-5, -1), 600);
}

#[test]
fn default_tiers_heal_more_for_smaller_parties() {
    let tiers = default_bonfire_tiers();
    assert_eq!(tiers.len(), 3);
    assert_eq!((tiers[0].min_nearby_allies, tiers[0].hp_heal, tiers[0].mp_heal), (4, 60, 30));
    assert_eq!((tiers[1].min_nearby_allies, tiers[1].hp_heal, tiers[1].mp_heal), (2, 75, 45));
    assert_eq!((tiers[2].min_nearby_allies, tiers[2].hp_heal, tiers[2].mp_heal), (0, 90, 60));
    assert!(tiers.iter().all(|t| t.search_radius == 1200 && t.radius == 1000));
}

#[test]
fn bonfires_pulse_once_per_interval() {
    let mut aura = BonfireAura::new(Entity::from_raw(1), None, Duration::from_secs(2));
    assert!(!aura.advance_pulse(Duration::from_nanos(1_500_000_000)));
    assert!(aura.advance_pulse(Duration::from_nanos(1_000_000_000)));
    assert_eq!(aura.elapsed.as_nanos(), 500_000_000);
    aura.pulse_immediately();
    assert!(aura.advance_pulse(Duration::zero()));
    assert_eq!(aura.elapsed.as_nanos(), 0);
}

#[test]
fn bonfire_heals_add_up_and_stop_at_the_maximum() {
    assert_eq!(bonfire_heal(50, 10, 100, 40, &vec![(20, 5), (40, 30)]), (100, 40, true, true));
    assert_eq!(bonfire_heal(50, 10, 100, 40, &vec![(20, 0)]), (70, 10, true, false));
    assert_eq!(bonfire_heal(100, 40, 100, 40, &vec![(20, 5)]), (100, 40, false, false));
    // the dead and those no pulse reaches gain nothing
    assert_eq!(bonfire_heal(0, 10, 100, 40, &vec![(20, 5)]), (0, 10, false, false));
    assert_eq!(bonfire_heal(50, 10, 100, 40, &vec![]), (50, 10, false, false));
}
