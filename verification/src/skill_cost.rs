//! Paying what casting a skill costs: stamina, health, mana, experience,
//! money or vehicle fuel.
use vstd::prelude::*;

use crate::command::SkillId;

verus! {

/// What a skill's use cost is paid in.
#[derive(Debug, Clone, Copy, PartialEq, Eq, Structural)]
pub enum SkillCostKind {
    Stamina,
    Health,
    Mana,
    Experience,
    Money,
    Fuel,
    /// Anything else costs nothing.
    Other,
}

/// What a caster has to pay with; a caster without mana, stamina,
/// experience or an inventory pays nothing of that kind.
#[derive(Debug, Clone, Copy, PartialEq, Eq, Structural)]
pub struct CasterResources {
    pub hp: i32,
    pub mp: Option<i32>,
    pub stamina: Option<u32>,
    pub xp: Option<u64>,
    pub money: Option<i64>,
}

/// Points after paying `value` of them: never below 1.
pub open spec fn pay_points(points: i32, value: i32) -> i32 {
    if points <= value {
        1
    } else {
        (points - value) as i32
    }
}

/// A payment the caster can make without an arithmetic overflow.
pub open spec fn payable(res: CasterResources, kind: SkillCostKind, value: i32) -> bool {
    match kind {
        SkillCostKind::Health => res.hp - value <= i32::MAX,
        SkillCostKind::Mana => match res.mp {
            Some(mp) => mp - value <= i32::MAX,
            None => true,
        },
        SkillCostKind::Money => match res.money {
            Some(m) => i64::MIN <= m - value <= i64::MAX,
            None => true,
        },
        _ => true,
    }
}

/// The caster's resources after paying `value` of `kind`: stamina goes down
/// to no less than zero (a negative cost, read as an unsigned number, takes
/// it all), health and mana to no less than one, experience to no less than
/// zero, money by the cost.
pub open spec fn spec_pay(res: CasterResources, kind: SkillCostKind, value: i32) -> CasterResources {
    match kind {
        SkillCostKind::Stamina => CasterResources {
            stamina: match res.stamina {
                Some(s) => Some(
                    if s >= (value as u32) {
                        (s - (value as u32)) as u32
                    } else {
                        0u32
                    },
                ),
                None => None,
            },
            ..res
        },
        SkillCostKind::Health => CasterResources { hp: pay_points(res.hp, value), ..res },
        SkillCostKind::Mana => CasterResources {
            mp: match res.mp {
                Some(mp) => Some(pay_points(mp, value)),
                None => None,
            },
            ..res
        },
        SkillCostKind::Experience => CasterResources {
            xp: match res.xp {
                Some(xp) => Some(
                    if xp <= (value as u64) {
                        0u64
                    } else {
                        (xp - (value as u64)) as u64
                    },
                ),
                None => None,
            },
            ..res
        },
        SkillCostKind::Money => CasterResources {
            money: match res.money {
                Some(m) => Some((m - value) as i64),
                None => None,
            },
            ..res
        },
        _ => res,
    }
}

/// The fuel a vehicle loses: the cost held to the `u16` range.
pub open spec fn fuel_amount(value: i32) -> u16 {
    if value < 0 {
        0
    } else if value > 0xffff {
        0xffff
    } else {
        value as u16
    }
}

/// Pays `value` of `kind` from the caster's resources; a fuel cost is not
/// paid here but gives the fuel the vehicle's engine loses.
pub fn pay_skill_cost(res: &mut CasterResources, kind: SkillCostKind, value: i32) -> (fuel: Option<u16>)
    requires
        payable(*old(res), kind, value),
    ensures
        *final(res) == spec_pay(*old(res), kind, value),
        kind is Fuel ==> fuel == Some(fuel_amount(value)),
        !(kind is Fuel) ==> fuel is None,
{
    match kind {
        SkillCostKind::Stamina => {
            if let Some(s) = res.stamina {
                res.stamina = Some(s.saturating_sub(value as u32));
            }
            None
        },
        SkillCostKind::Health => {
            if res.hp <= value {
                res.hp = 1;
            } else {
                res.hp = res.hp - value;
            }
            None
        },
        SkillCostKind::Mana => {
            if let Some(mp) = res.mp {
                res.mp = Some(if mp <= value {
                    1
                } else {
                    mp - value
                });
            }
            None
        },
        SkillCostKind::Experience => {
            if let Some(xp) = res.xp {
                res.xp = Some(if xp <= value as u64 {
                    0
                } else {
                    xp - value as u64
                });
            }
            None
        },
        SkillCostKind::Money => {
            if let Some(m) = res.money {
                res.money = Some(m - value as i64);
            }
            None
        },
        SkillCostKind::Fuel => {
            let amount: u16 = if value < 0 {
                0
            } else if value > 0xffff {
                0xffff
            } else {
                value as u16
            };
            Some(amount)
        },
        SkillCostKind::Other => None,
    }
}

/// Paying a skill's health or mana cost never takes the caster below one
/// point: the caster never dies of casting.
pub proof fn lemma_cost_never_kills(res: CasterResources, kind: SkillCostKind, value: i32)
    requires
        payable(res, kind, value),
    ensures
        kind is Health ==> spec_pay(res, kind, value).hp >= 1,
        kind is Mana && res.mp is Some ==> spec_pay(res, kind, value).mp.unwrap() >= 1,
{
}

/// How long using a skill keeps it, or its cooldown group, from being used
/// again (in the clock's ticks).
#[derive(Debug, Clone, Copy, PartialEq, Eq, Structural)]
pub enum SkillCooldown {
    Skill { duration: u64 },
    Group { group: usize, duration: u64 },
}

/// Until when (in the clock's ticks) skills cannot be used: all of them, each
/// skill by id (one entry per skill), and each cooldown group by index.
#[derive(Debug, Clone)]
pub struct Cooldowns {
    pub skill_global: Option<u64>,
    pub skill: Vec<(SkillId, u64)>,
    pub skill_group: Vec<Option<u64>>,
}

/// The per-skill entries after setting `skill`'s to `until`: its entry is
/// replaced, or one is added at the end.
pub open spec fn with_skill_cooldown(v: Seq<(SkillId, u64)>, skill: SkillId, until: u64) -> Seq<
    (SkillId, u64),
> {
    if exists|i: int| 0 <= i < v.len() && #[trigger] v[i].0 == skill {
        let i = choose|i: int| 0 <= i < v.len() && #[trigger] v[i].0 == skill;
        v.update(i, (skill, until))
    } else {
        v.push((skill, until))
    }
}

/// No skill has two entries.
pub open spec fn skills_unique(v: Seq<(SkillId, u64)>) -> bool {
    forall|i: int, j: int| 0 <= i < j < v.len() ==> #[trigger] v[i].0 != #[trigger] v[j].0
}

/// The cooldowns after using `skill` at `now`: the global one ends
/// `global_cooldown` later; the skill's own ends its duration later, or its
/// group's does when that group exists.
pub open spec fn spec_start_cooldowns(
    c: Cooldowns,
    skill: SkillId,
    cooldown: SkillCooldown,
    now: u64,
    global_cooldown: u64,
) -> (Option<u64>, Seq<(SkillId, u64)>, Seq<Option<u64>>) {
    let global = Some((now + global_cooldown) as u64);
    match cooldown {
        SkillCooldown::Skill { duration } => (
            global,
            with_skill_cooldown(c.skill@, skill, (now + duration) as u64),
            c.skill_group@,
        ),
        SkillCooldown::Group { group, duration } => (
            global,
            c.skill@,
            if group < c.skill_group@.len() {
                c.skill_group@.update(group as int, Some((now + duration) as u64))
            } else {
                c.skill_group@
            },
        ),
    }
}

/// The per-skill entries with `skill`'s set to `until`.
fn set_skill_cooldown(v: &mut Vec<(SkillId, u64)>, skill: SkillId, until: u64)
    requires
        skills_unique(old(v)@),
    ensures
        final(v)@ == with_skill_cooldown(old(v)@, skill, until),
        skills_unique(final(v)@),
{
    let mut i: usize = 0;
    while i < v.len()
        invariant
            i <= v@.len(),
            v@ == old(v)@,
            skills_unique(old(v)@),
            forall|j: int| 0 <= j < i ==> #[trigger] v@[j].0 != skill,
        decreases v@.len() - i,
    {
        if v[i].0 == skill {
            proof {
                let k = choose|k: int| 0 <= k < v@.len() && #[trigger] v@[k].0 == skill;
                assert(k == i) by {
                    if k != i as int {
                        assert(v@[k].0 == v@[i as int].0);
                    }
                }
            }
            v.set(i, (skill, until));
            proof {
                assert forall|a: int, b: int| 0 <= a < b < v@.len() implies #[trigger] v@[a].0
                    != #[trigger] v@[b].0 by {
                    if a != i as int && b != i as int {
                        assert(old(v)@[a].0 != old(v)@[b].0);
                    } else if a == i as int {
                        assert(old(v)@[b].0 != old(v)@[i as int].0);
                    } else {
                        assert(old(v)@[a].0 != old(v)@[i as int].0);
                    }
                }
            }
            return;
        }
        i = i + 1;
    }
    v.push((skill, until));
    proof {
        assert forall|a: int, b: int| 0 <= a < b < v@.len() implies #[trigger] v@[a].0
            != #[trigger] v@[b].0 by {
            if b < old(v)@.len() {
                assert(old(v)@[a].0 != old(v)@[b].0);
            }
        }
    }
}

/// Starts the cooldowns of using `skill` at `now`.
pub fn start_skill_cooldowns(
    cooldowns: &mut Cooldowns,
    skill: SkillId,
    cooldown: SkillCooldown,
    now: u64,
    global_cooldown: u64,
)
    requires
        skills_unique(old(cooldowns).skill@),
        now + global_cooldown <= u64::MAX,
        match cooldown {
            SkillCooldown::Skill { duration } => now + duration <= u64::MAX,
            SkillCooldown::Group { duration, .. } => now + duration <= u64::MAX,
        },
    ensures
        (final(cooldowns).skill_global, final(cooldowns).skill@, final(cooldowns).skill_group@)
            == spec_start_cooldowns(*old(cooldowns), skill, cooldown, now, global_cooldown),
        skills_unique(final(cooldowns).skill@),
{
    cooldowns.skill_global = Some(now + global_cooldown);
    match cooldown {
        SkillCooldown::Skill { duration } => {
            set_skill_cooldown(&mut cooldowns.skill, skill, now + duration);
        },
        SkillCooldown::Group { group, duration } => {
            if group < cooldowns.skill_group.len() {
                cooldowns.skill_group.set(group, Some(now + duration));
            }
        },
    }
}

/// The caster's resources after paying each cost in turn.
pub open spec fn pay_all(res: CasterResources, costs: Seq<(SkillCostKind, i32)>) -> CasterResources
    decreases costs.len(),
{
    if costs.len() == 0 {
        res
    } else {
        spec_pay(pay_all(res, costs.drop_last()), costs.last().0, costs.last().1)
    }
}

/// Every cost can be paid, in turn, without an arithmetic overflow.
pub open spec fn all_payable(res: CasterResources, costs: Seq<(SkillCostKind, i32)>) -> bool
    decreases costs.len(),
{
    costs.len() == 0 || (all_payable(res, costs.drop_last()) && payable(
        pay_all(res, costs.drop_last()),
        costs.last().0,
        costs.last().1,
    ))
}

/// The fuel each fuel cost takes from the vehicle's engine, in order.
pub open spec fn fuel_costs(costs: Seq<(SkillCostKind, i32)>) -> Seq<u16>
    decreases costs.len(),
{
    if costs.len() == 0 {
        Seq::empty()
    } else if costs.last().0 is Fuel {
        fuel_costs(costs.drop_last()).push(fuel_amount(costs.last().1))
    } else {
        fuel_costs(costs.drop_last())
    }
}

/// Pays what using a skill costs: each of its use costs in turn (a mana cost
/// already reduced by the caster's mana saving), and, for a caster that keeps
/// cooldowns, starts the global cooldown and the skill's own. Gives the fuel
/// each fuel cost takes from the vehicle's engine.
pub fn subtract_skill_use_cost(
    res: &mut CasterResources,
    cooldowns: &mut Option<Cooldowns>,
    skill: SkillId,
    cooldown: SkillCooldown,
    use_costs: &Vec<(SkillCostKind, i32)>,
    now: u64,
    global_cooldown: u64,
) -> (fuel: Vec<u16>)
    requires
        all_payable(*old(res), use_costs@),
        match *old(cooldowns) {
            Some(c) => skills_unique(c.skill@),
            None => true,
        },
        now + global_cooldown <= u64::MAX,
        match cooldown {
            SkillCooldown::Skill { duration } => now + duration <= u64::MAX,
            SkillCooldown::Group { duration, .. } => now + duration <= u64::MAX,
        },
    ensures
        *final(res) == pay_all(*old(res), use_costs@),
        fuel@ == fuel_costs(use_costs@),
        match (*old(cooldowns), *final(cooldowns)) {
            (None, None) => true,
            (Some(before), Some(after)) => (after.skill_global, after.skill@, after.skill_group@)
                == spec_start_cooldowns(before, skill, cooldown, now, global_cooldown),
            _ => false,
        },
{
    if let Some(c) = cooldowns {
        start_skill_cooldowns(c, skill, cooldown, now, global_cooldown);
    }
    let mut fuel: Vec<u16> = Vec::new();
    let mut i: usize = 0;
    let ghost start = *res;
    while i < use_costs.len()
        invariant
            i <= use_costs@.len(),
            all_payable(start, use_costs@),
            *res == pay_all(start, use_costs@.take(i as int)),
            fuel@ == fuel_costs(use_costs@.take(i as int)),
        decreases use_costs@.len() - i,
    {
        let (kind, value) = use_costs[i];
        proof {
            let t = use_costs@.take(i + 1);
            assert(t.drop_last() =~= use_costs@.take(i as int));
            assert(t.last() == use_costs@[i as int]);
            lemma_all_payable_prefix(start, use_costs@, i + 1);
        }
        let f = pay_skill_cost(res, kind, value);
        if let Some(amount) = f {
            fuel.push(amount);
        }
        i = i + 1;
    }
    assert(use_costs@.take(use_costs@.len() as int) =~= use_costs@);
    fuel
}

proof fn lemma_all_payable_prefix(res: CasterResources, costs: Seq<(SkillCostKind, i32)>, n: int)
    requires
        all_payable(res, costs),
        0 <= n <= costs.len(),
    ensures
        all_payable(res, costs.take(n)),
    decreases costs.len(),
{
    if n < costs.len() {
        assert(costs.drop_last().take(n) =~= costs.take(n));
        lemma_all_payable_prefix(res, costs.drop_last(), n);
    } else {
        assert(costs.take(n) =~= costs);
    }
}

} // verus!
