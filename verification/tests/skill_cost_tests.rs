use rose_data_core::command::SkillId;
use rose_data_core::skill_cost::{
    pay_skill_cost, subtract_skill_use_cost, CasterResources, Cooldowns, SkillCooldown, SkillCostKind,
};

fn caster() -> CasterResources {
    CasterResources { hp: 100, mp: Some(50), stamina: Some(30), xp: Some(1000), money: Some(500) }
}

#[test]
fn health_and_mana_costs_stop_at_one_point() {
    let mut res = caster();
    assert_eq!(pay_skill_cost(&mut res, SkillCostKind::Health, 40), None);
    assert_eq!(res.hp, 60);
    pay_skill_cost(&mut res, SkillCostKind::Health, 500);
    assert_eq!(res.hp, 1);
    pay_skill_cost(&mut res, SkillCostKind::Mana, 50);
    assert_eq!(res.mp, Some(1));
}

#[test]
fn stamina_experience_and_money_costs() {
    let mut res = caster();
    pay_skill_cost(&mut res, SkillCostKind::Stamina, 40);
    assert_eq!(res.stamina, Some(0));
    pay_skill_cost(&mut res, SkillCostKind::Experience, 300);
    assert_eq!(res.xp, Some(700));
    pay_skill_cost(&mut res, SkillCostKind::Experience, 5000);
    assert_eq!(res.xp, Some(0));
    pay_skill_cost(&mut res, SkillCostKind::Money, 600);
    assert_eq!(res.money, Some(-100));
}

#[test]
fn fuel_cost_is_reported_not_paid() {
    let mut res = caster();
    assert_eq!(pay_skill_cost(&mut res, SkillCostKind::Fuel, 70000), Some(65535));
    assert_eq!(pay_skill_cost(&mut res, SkillCostKind::Fuel, -3), Some(0));
    assert_eq!(pay_skill_cost(&mut res, SkillCostKind::Other, 9), None);
    assert_eq!(res, caster());
}

#[test]
fn casters_without_a_resource_pay_nothing_of_it() {
    let mut res = CasterResources { hp: 10, mp: None, stamina: None, xp: None, money: None };
    pay_skill_cost(&mut res, SkillCostKind::Mana, 5);
    pay_skill_cost(&mut res, SkillCostKind::Stamina, 5);
    assert_eq!(res, CasterResources { hp: 10, mp: None, stamina: None, xp: None, money: None });
}

fn fresh_cooldowns() -> Cooldowns {
    Cooldowns { skill_global: None, skill: vec![], skill_group: vec![None, None, None] }
}

#[test]
fn using_a_skill_pays_each_cost_and_starts_the_global_cooldown() {
    let mut res = CasterResources { hp: 50, mp: Some(30), stamina: Some(10), xp: Some(100), money: Some(5) };
    let mut cooldowns = Some(fresh_cooldowns());
    let skill = SkillId::new(12).unwrap();
    let costs = vec![
        (SkillCostKind::Health, 60),
        (SkillCostKind::Mana, 12),
        (SkillCostKind::Experience, 150),
        (SkillCostKind::Fuel, 70_000),
        (SkillCostKind::Money, 8),
    ];
    let fuel = subtract_skill_use_cost(
        &mut res,
        &mut cooldowns,
        skill,
        SkillCooldown::Skill { duration: 3_000 },
        &costs,
        1_000,
        250,
    );
    assert_eq!(res, CasterResources { hp: 1, mp: Some(18), stamina: Some(10), xp: Some(0), money: Some(-3) });
    assert_eq!(fuel, vec![65_535]);
    let c = cooldowns.unwrap();
    assert_eq!(c.skill_global, Some(1_250));
    assert_eq!(c.skill, vec![(skill, 4_000)]);
    assert_eq!(c.skill_group, vec![None, None, None]);
}

#[test]
fn group_cooldowns_and_repeated_skills() {
    let skill = SkillId::new(12).unwrap();
    let mut res = CasterResources { hp: 50, mp: None, stamina: None, xp: None, money: None };
    let mut cooldowns = Some(Cooldowns {
        skill_global: Some(1),
        skill: vec![(skill, 10)],
        skill_group: vec![None, None],
    });
    subtract_skill_use_cost(&mut res, &mut cooldowns, skill, SkillCooldown::Group { group: 1, duration: 7 }, &vec![], 100, 5);
    let c = cooldowns.clone().unwrap();
    assert_eq!(c.skill_global, Some(105));
    assert_eq!(c.skill_group, vec![None, Some(107)]);
    assert_eq!(c.skill, vec![(skill, 10)]);
    subtract_skill_use_cost(&mut res, &mut cooldowns, skill, SkillCooldown::Skill { duration: 7 }, &vec![], 200, 5);
    assert_eq!(cooldowns.clone().unwrap().skill, vec![(skill, 207)]);
    // a group past the last one is left alone; a caster without cooldowns keeps none
    subtract_skill_use_cost(&mut res, &mut cooldowns, skill, SkillCooldown::Group { group: 9, duration: 7 }, &vec![], 300, 5);
    assert_eq!(cooldowns.clone().unwrap().skill_group, vec![None, Some(107)]);
    let mut none: Option<Cooldowns> = None;
    subtract_skill_use_cost(&mut res, &mut none, skill, SkillCooldown::Skill { duration: 7 }, &vec![], 300, 5);
    assert!(none.is_none());
}
