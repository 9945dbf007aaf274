use rose_data_core::status_effects::{
    apply_status_effects, AddAbility, EffectAttempt, EffectStop, StatusEffectKind,
};

fn effect(kind: StatusEffectKind, clears_good: bool, roll: i32, passes: bool) -> EffectAttempt {
    EffectAttempt { kind, clears_good, roll, other_test_passes: passes, can_apply: true }
}

#[test]
fn held_effects_stop_what_they_disable() {
    let r = apply_status_effects(
        50,
        10,
        10,
        [Some(effect(StatusEffectKind::Dumb, false, 0, true)), Some(effect(StatusEffectKind::Sleep, false, 0, true))],
        [None, None],
        100,
        200,
        Some(10),
        50,
    );
    assert_eq!(r.applied, [true, true]);
    assert_eq!(r.stops, [EffectStop::SkillUse, EffectStop::Action]);
    assert_eq!(r.success, [true, true]);
    assert_eq!((r.hp, r.mp), (100, Some(10)));
}

#[test]
fn good_effects_resist_by_level_and_roll() {
    // ratio 50 against level difference 5: a roll of 45 is let through, 46 resisted
    let through = apply_status_effects(50, 15, 10, [Some(effect(StatusEffectKind::Other, true, 45, false)), None], [None, None], 1, 1, None, 1);
    assert_eq!(through.applied, [true, false]);
    let resisted = apply_status_effects(50, 15, 10, [Some(effect(StatusEffectKind::Other, true, 46, true)), None], [None, None], 1, 1, None, 1);
    assert_eq!(resisted.applied, [false, false]);
    assert_eq!(resisted.success, [false, false]);
    // a failed test elsewhere resists, unless the ratio is not positive
    let other = apply_status_effects(50, 1, 1, [None, Some(effect(StatusEffectKind::Fainting, false, 0, false))], [None, None], 1, 1, None, 1);
    assert_eq!(other.applied, [false, false]);
    let no_ratio = apply_status_effects(0, 1, 1, [None, Some(effect(StatusEffectKind::Fainting, false, 0, false))], [None, None], 1, 1, None, 1);
    assert_eq!(no_ratio.applied, [false, true]);
    assert_eq!(no_ratio.stops, [EffectStop::Nothing, EffectStop::Action]);
    // an effect the target's effects refuse never holds
    let mut blocked = effect(StatusEffectKind::Dumb, false, 0, true);
    blocked.can_apply = false;
    let r = apply_status_effects(50, 1, 1, [Some(blocked), None], [None, None], 1, 1, None, 1);
    assert_eq!(r.applied, [false, false]);
}

#[test]
fn added_health_and_mana_stop_at_the_maximum() {
    let r = apply_status_effects(
        0,
        1,
        1,
        [None, None],
        [Some(AddAbility::Health(80)), Some(AddAbility::Mana(30))],
        150,
        200,
        Some(10),
        30,
    );
    assert_eq!((r.hp, r.mp), (200, Some(30)));
    assert_eq!(r.success, [true, true]);
    let none = apply_status_effects(0, 1, 1, [None, None], [Some(AddAbility::Mana(5)), Some(AddAbility::Other)], 5, 9, None, 9);
    assert_eq!((none.hp, none.mp), (5, None));
    assert_eq!(none.success, [true, false]);
}
