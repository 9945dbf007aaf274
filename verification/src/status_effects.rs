//! What a skill's status effects and added abilities do to their target:
//! which effects take hold (after the target's chance to resist), which of
//! them stop what the target is doing, and the health and mana it gains.
use vstd::prelude::*;

verus! {

/// The kinds of status effect whose taking hold changes more than the
/// target's list of effects.
#[derive(Debug, Clone, Copy, PartialEq, Eq, Structural)]
pub enum StatusEffectKind {
    /// Stops skill use.
    Dumb,
    /// Stops every action.
    Fainting,
    /// Stops every action.
    Sleep,
    Taunt,
    /// Its value is the skill's power.
    AdditionalDamageRate,
    Other,
}

/// One status effect of a skill, as the target meets it.
#[derive(Debug, Clone, Copy, PartialEq, Eq, Structural)]
pub struct EffectAttempt {
    pub kind: StatusEffectKind,
    /// The effect is cleared as a good one; its resistance test is by level.
    pub clears_good: bool,
    /// The random roll, from 1 to 100, of a test by level.
    pub roll: i32,
    /// Any other effect's resistance test (on the caster's intelligence and
    /// the target's resistance and avoidance) let the effect through.
    pub other_test_passes: bool,
    /// The target's effects allow this one at its value.
    pub can_apply: bool,
}

/// What a skill adds to the target's abilities.
#[derive(Debug, Clone, Copy, PartialEq, Eq, Structural)]
pub enum AddAbility {
    /// Health, by the adjusted amount the ability calculator gives.
    Health(i32),
    /// Mana, by the skill's value.
    Mana(i32),
    /// Anything else changes nothing.
    Other,
}

/// What the caller must do to the target's commands once an effect holds.
#[derive(Debug, Clone, Copy, PartialEq, Eq, Structural)]
pub enum EffectStop {
    Nothing,
    /// Stop a skill being cast (`stop_skill_use_disabled_target`).
    SkillUse,
    /// Stop whatever the target does (`stop_action_disabled_target`).
    Action,
}

/// What the target is left with.
#[derive(Debug, Clone, Copy, PartialEq, Eq)]
pub struct StatusEffectsResult {
    /// Which status effects take hold.
    pub applied: [bool; 2],
    /// What each effect that holds stops.
    pub stops: [EffectStop; 2],
    /// Which effect slots succeeded (an effect took hold, or health or mana
    /// was added); any success is shown to clients.
    pub success: [bool; 2],
    pub hp: i32,
    pub mp: Option<i32>,
}

/// The effect resists the skill: with a positive success ratio, a good
/// effect is resisted when the ratio is below the level difference plus the
/// roll, any other when its own test fails. A ratio of zero or less is never
/// resisted.
pub open spec fn resisted(success_ratio: i32, target_level: i32, caster_level: i32, e: EffectAttempt) -> bool {
    success_ratio > 0 && if e.clears_good {
        success_ratio < target_level - caster_level + e.roll
    } else {
        !e.other_test_passes
    }
}

/// The effect takes hold.
pub open spec fn takes_hold(success_ratio: i32, target_level: i32, caster_level: i32, e: Option<EffectAttempt>) -> bool {
    match e {
        Some(a) => !resisted(success_ratio, target_level, caster_level, a) && a.can_apply,
        None => false,
    }
}

/// What a holding effect of this kind stops.
pub open spec fn stop_of(e: Option<EffectAttempt>) -> EffectStop {
    match e {
        Some(a) => match a.kind {
            StatusEffectKind::Dumb => EffectStop::SkillUse,
            StatusEffectKind::Fainting | StatusEffectKind::Sleep => EffectStop::Action,
            _ => EffectStop::Nothing,
        },
        None => EffectStop::Nothing,
    }
}

/// Health after adding `add`, not above the maximum.
pub open spec fn add_capped(v: i32, add: i32, max: i32) -> i32 {
    if v + add > max {
        max
    } else {
        (v + add) as i32
    }
}

/// The target's health after the added abilities, in slot order.
pub open spec fn hp_after(hp: i32, max_hp: i32, adds: Seq<Option<AddAbility>>, n: nat) -> i32
    decreases n,
{
    if n == 0 {
        hp
    } else {
        let h = hp_after(hp, max_hp, adds, (n - 1) as nat);
        match adds[n - 1] {
            Some(AddAbility::Health(a)) => add_capped(h, a, max_hp),
            _ => h,
        }
    }
}

/// The target's mana after the added abilities, in slot order (a target
/// without mana keeps none).
pub open spec fn mp_after(mp: Option<i32>, max_mp: i32, adds: Seq<Option<AddAbility>>, n: nat) -> Option<i32>
    decreases n,
{
    if n == 0 {
        mp
    } else {
        let m = mp_after(mp, max_mp, adds, (n - 1) as nat);
        match (adds[n - 1], m) {
            (Some(AddAbility::Mana(a)), Some(v)) => Some(add_capped(v, a, max_mp)),
            _ => m,
        }
    }
}

/// No addition overflows.
pub open spec fn adds_fit(hp: i32, max_hp: i32, mp: Option<i32>, max_mp: i32, adds: Seq<Option<AddAbility>>) -> bool {
    &&& forall|k: int| 0 <= k < 2 ==> match #[trigger] adds[k] {
        Some(AddAbility::Health(a)) => i32::MIN <= hp_after(hp, max_hp, adds, k as nat) + a <= i32::MAX,
        Some(AddAbility::Mana(a)) => match mp_after(mp, max_mp, adds, k as nat) {
            Some(v) => i32::MIN <= v + a <= i32::MAX,
            None => true,
        },
        _ => true,
    }
}

/// The answer for a skill's two status effects and two added abilities.
pub open spec fn spec_apply_status_effects(
    success_ratio: i32,
    target_level: i32,
    caster_level: i32,
    effects: [Option<EffectAttempt>; 2],
    adds: [Option<AddAbility>; 2],
    hp: i32,
    max_hp: i32,
    mp: Option<i32>,
    max_mp: i32,
) -> StatusEffectsResult {
    let h0 = takes_hold(success_ratio, target_level, caster_level, effects[0]);
    let h1 = takes_hold(success_ratio, target_level, caster_level, effects[1]);
    let a0 = adds[0] matches Some(AddAbility::Health(_)) || adds[0] matches Some(AddAbility::Mana(_));
    let a1 = adds[1] matches Some(AddAbility::Health(_)) || adds[1] matches Some(AddAbility::Mana(_));
    StatusEffectsResult {
        applied: [h0, h1],
        stops: [
            if h0 { stop_of(effects[0]) } else { EffectStop::Nothing },
            if h1 { stop_of(effects[1]) } else { EffectStop::Nothing },
        ],
        success: [h0 || a0, h1 || a1],
        hp: hp_after(hp, max_hp, adds@, 2),
        mp: mp_after(mp, max_mp, adds@, 2),
    }
}

fn resists(success_ratio: i32, target_level: i32, caster_level: i32, e: EffectAttempt) -> (r: bool)
    requires
        e.clears_good && success_ratio > 0 ==> i32::MIN <= target_level - caster_level + e.roll <= i32::MAX
            && i32::MIN <= target_level - caster_level <= i32::MAX,
    ensures
        r == resisted(success_ratio, target_level, caster_level, e),
{
    if success_ratio <= 0 {
        false
    } else if e.clears_good {
        success_ratio < target_level - caster_level + e.roll
    } else {
        !e.other_test_passes
    }
}

fn add_to(v: i32, add: i32, max: i32) -> (r: i32)
    requires
        i32::MIN <= v + add <= i32::MAX,
    ensures
        r == add_capped(v, add, max),
{
    let s = v + add;
    if s > max {
        max
    } else {
        s
    }
}

fn effect_outcome(
    success_ratio: i32,
    target_level: i32,
    caster_level: i32,
    effect: Option<EffectAttempt>,
) -> (r: (bool, EffectStop))
    requires
        match effect {
            Some(e) => e.clears_good && success_ratio > 0 ==> i32::MIN <= target_level - caster_level
                + e.roll <= i32::MAX && i32::MIN <= target_level - caster_level <= i32::MAX,
            None => true,
        },
    ensures
        r.0 == takes_hold(success_ratio, target_level, caster_level, effect),
        r.1 == if r.0 {
            stop_of(effect)
        } else {
            EffectStop::Nothing
        },
{
    match effect {
        None => (false, EffectStop::Nothing),
        Some(e) => {
            if !resists(success_ratio, target_level, caster_level, e) && e.can_apply {
                let stop = match e.kind {
                    StatusEffectKind::Dumb => EffectStop::SkillUse,
                    StatusEffectKind::Fainting | StatusEffectKind::Sleep => EffectStop::Action,
                    _ => EffectStop::Nothing,
                };
                (true, stop)
            } else {
                (false, EffectStop::Nothing)
            }
        },
    }
}

fn add_ability_to(h: i32, m: Option<i32>, add: Option<AddAbility>, max_hp: i32, max_mp: i32) -> (r: (
    i32,
    Option<i32>,
    bool,
))
    requires
        match add {
            Some(AddAbility::Health(a)) => i32::MIN <= h + a <= i32::MAX,
            Some(AddAbility::Mana(a)) => match m {
                Some(v) => i32::MIN <= v + a <= i32::MAX,
                None => true,
            },
            _ => true,
        },
    ensures
        r.0 == match add {
            Some(AddAbility::Health(a)) => add_capped(h, a, max_hp),
            _ => h,
        },
        r.1 == match (add, m) {
            (Some(AddAbility::Mana(a)), Some(v)) => Some(add_capped(v, a, max_mp)),
            _ => m,
        },
        r.2 == (add matches Some(AddAbility::Health(_)) || add matches Some(AddAbility::Mana(_))),
{
    match add {
        Some(AddAbility::Health(a)) => (add_to(h, a, max_hp), m, true),
        Some(AddAbility::Mana(a)) => {
            let m2 = match m {
                Some(v) => Some(add_to(v, a, max_mp)),
                None => None,
            };
            (h, m2, true)
        },
        _ => (h, m, false),
    }
}

/// Applies a skill's status effects and added abilities to its target (the
/// target already passed the skill's target filter): `effects` are the
/// skill's two status effects as the target meets them (`None` for an empty
/// slot or an unknown effect), `adds` its two added abilities.
pub fn apply_status_effects(
    success_ratio: i32,
    target_level: i32,
    caster_level: i32,
    effects: [Option<EffectAttempt>; 2],
    adds: [Option<AddAbility>; 2],
    hp: i32,
    max_hp: i32,
    mp: Option<i32>,
    max_mp: i32,
) -> (r: StatusEffectsResult)
    requires
        forall|k: int| 0 <= k < 2 ==> match #[trigger] effects@[k] {
            Some(e) => e.clears_good && success_ratio > 0 ==> i32::MIN <= target_level - caster_level
                + e.roll <= i32::MAX && i32::MIN <= target_level - caster_level <= i32::MAX,
            None => true,
        },
        adds_fit(hp, max_hp, mp, max_mp, adds@),
    ensures
        r == spec_apply_status_effects(
            success_ratio,
            target_level,
            caster_level,
            effects,
            adds,
            hp,
            max_hp,
            mp,
            max_mp,
        ),
{
    let e0 = effects[0];
    let e1 = effects[1];
    assert(effects@[0] == e0 && effects@[1] == e1);
    let (h0, s0) = effect_outcome(success_ratio, target_level, caster_level, e0);
    let (h1, s1) = effect_outcome(success_ratio, target_level, caster_level, e1);
    let a0 = adds[0];
    let a1 = adds[1];
    assert(adds@[0] == a0 && adds@[1] == a1);
    assert(hp_after(hp, max_hp, adds@, 0) == hp && mp_after(mp, max_mp, adds@, 0) == mp);
    let (hp1, mp1, ok0) = add_ability_to(hp, mp, a0, max_hp, max_mp);
    assert(hp_after(hp, max_hp, adds@, 1) == hp1 && mp_after(mp, max_mp, adds@, 1) == mp1);
    let (hp2, mp2, ok1) = add_ability_to(hp1, mp1, a1, max_hp, max_mp);
    assert(hp_after(hp, max_hp, adds@, 2) == hp2 && mp_after(mp, max_mp, adds@, 2) == mp2);
    let r = StatusEffectsResult {
        applied: [h0, h1],
        stops: [s0, s1],
        success: [h0 || ok0, h1 || ok1],
        hp: hp2,
        mp: mp2,
    };
    r
}

} // verus!
