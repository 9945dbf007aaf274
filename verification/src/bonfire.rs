//! Bonfires: which skills raise one, how much they heal, who they heal, and
//! which strength of aura applies to how many allies stand near.
use vstd::prelude::*;

use crate::crafting::AbilityType;
use crate::entity::Entity;
use crate::spawn::{max_span, Duration};

verus! {

/// The skill that raises a bonfire, and the base of its upgrades.
pub const BONFIRE_BASE_SKILL_ID: u16 = 1161;

/// Bonfire healing is the skill's value times this.
pub const BONFIRE_HP_BALANCE_MULTIPLIER: i32 = 3;

/// Bonfire mana recovery is the skill's value times this.
pub const BONFIRE_MP_BALANCE_MULTIPLIER: i32 = 3;

/// A skill raises a bonfire when it, or the skill it upgrades, is the
/// bonfire skill.
pub fn is_bonfire_skill(id: u16, base_skill_id: Option<u16>) -> (r: bool)
    ensures
        r == (match base_skill_id {
            Some(b) => b,
            None => id,
        } == BONFIRE_BASE_SKILL_ID),
{
    let base = match base_skill_id {
        Some(b) => b,
        None => id,
    };
    base == BONFIRE_BASE_SKILL_ID
}

/// The ability heals health.
pub open spec fn heals_health(t: AbilityType) -> bool {
    t == AbilityType::Health || t == AbilityType::RecoverHealth
}

/// The ability restores mana.
pub open spec fn heals_mana(t: AbilityType) -> bool {
    t == AbilityType::Mana || t == AbilityType::RecoverMana
}

/// The largest value (at least 0) among the first `k` abilities that `pick`
/// selects.
pub open spec fn max_value(v: Seq<Option<(AbilityType, i32)>>, k: nat, pick: spec_fn(AbilityType) -> bool) -> i32
    decreases k,
{
    if k == 0 {
        0
    } else {
        let prev = max_value(v, (k - 1) as nat, pick);
        match v[k - 1] {
            Some((t, value)) => if pick(t) && value > prev {
                value
            } else {
                prev
            },
            None => prev,
        }
    }
}

/// `x * 3`, held to the `i32` range.
pub open spec fn saturating_triple(x: i32) -> i32 {
    if x * 3 > i32::MAX {
        i32::MAX
    } else if x * 3 < i32::MIN {
        i32::MIN
    } else {
        (x * 3) as i32
    }
}

/// The health and mana a bonfire gives per pulse: the largest health and
/// the largest mana value among the skill's added abilities, each times 3
/// (held to the `i32` range).
pub fn get_bonfire_bonus_from_skill(add_ability: &Vec<Option<(AbilityType, i32)>>) -> (r: (i32, i32))
    ensures
        r.0 == saturating_triple(max_value(add_ability@, add_ability@.len(), |t: AbilityType| heals_health(t))),
        r.1 == saturating_triple(max_value(add_ability@, add_ability@.len(), |t: AbilityType| heals_mana(t))),
{
    let ghost hp_pick = |t: AbilityType| heals_health(t);
    let ghost mp_pick = |t: AbilityType| heals_mana(t);
    let mut hp_heal: i32 = 0;
    let mut mp_heal: i32 = 0;
    let mut i: usize = 0;
    while i < add_ability.len()
        invariant
            i <= add_ability@.len(),
            hp_heal == max_value(add_ability@, i as nat, hp_pick),
            mp_heal == max_value(add_ability@, i as nat, mp_pick),
            hp_pick == (|t: AbilityType| heals_health(t)),
            mp_pick == (|t: AbilityType| heals_mana(t)),
        decreases add_ability@.len() - i,
    {
        if let Some((t, value)) = add_ability[i] {
            match t {
                AbilityType::Health | AbilityType::RecoverHealth => {
                    if value > hp_heal {
                        hp_heal = value;
                    }
                },
                AbilityType::Mana | AbilityType::RecoverMana => {
                    if value > mp_heal {
                        mp_heal = value;
                    }
                },
                _ => {},
            }
        }
        proof {
            assert(((i + 1) as nat - 1) as nat == i as nat);
        }
        i = i + 1;
    }
    (triple_saturating(hp_heal), triple_saturating(mp_heal))
}

/// `x * 3`, held to the `i32` range (as `i32::saturating_mul` does).
fn triple_saturating(x: i32) -> (r: i32)
    ensures
        r == saturating_triple(x),
{
    let m: i64 = BONFIRE_HP_BALANCE_MULTIPLIER as i64;
    assert(m == 3);
    let v: i64 = (x as i64) * m;
    if v > i32::MAX as i64 {
        i32::MAX
    } else if v < i32::MIN as i64 {
        i32::MIN
    } else {
        v as i32
    }
}

/// A bonfire warms its owner and the owner's party.
pub fn is_bonfire_target(entity: Entity, party: Option<Entity>, owner_entity: Entity, owner_party: Option<Entity>) -> (r: bool)
    ensures
        r == (entity == owner_entity || (owner_party is Some && owner_party == party)),
{
    entity == owner_entity || (owner_party.is_some() && owner_party == party)
}

/// Tier `i` applies: enough allies stand within its reach.
pub open spec fn tier_applies(min_allies: Seq<usize>, nearby: Seq<usize>, i: int) -> bool {
    0 <= i < min_allies.len() && nearby[i] >= min_allies[i]
}

/// Tier `i` is tried before tier `j`: it asks for more allies, or as many
/// and stands later in the list.
pub open spec fn tried_before(min_allies: Seq<usize>, i: int, j: int) -> bool {
    min_allies[i] > min_allies[j] || (min_allies[i] == min_allies[j] && i > j)
}

/// The tier of a bonfire's aura that applies, tiers being tried from the
/// one that asks for the most allies down (`nearby[i]` being how many allies
/// stand within tier `i`'s search radius): the first whose minimum is met.
pub fn select_bonfire_tier(min_allies: &Vec<usize>, nearby: &Vec<usize>) -> (r: Option<usize>)
    requires
        nearby@.len() == min_allies@.len(),
    ensures
        match r {
            Some(i) => tier_applies(min_allies@, nearby@, i as int) && forall|j: int|
                0 <= j < min_allies@.len() && j != i && tier_applies(min_allies@, nearby@, j)
                    ==> tried_before(min_allies@, i as int, j),
            None => forall|j: int| 0 <= j < min_allies@.len() ==> !tier_applies(min_allies@, nearby@, j),
        },
{
    let mut best: Option<usize> = None;
    let mut i: usize = 0;
    while i < min_allies.len()
        invariant
            i <= min_allies@.len(),
            nearby@.len() == min_allies@.len(),
            match best {
                Some(b) => b < i && tier_applies(min_allies@, nearby@, b as int) && forall|j: int|
                    0 <= j < i && j != b && tier_applies(min_allies@, nearby@, j) ==> tried_before(
                        min_allies@,
                        b as int,
                        j,
                    ),
                None => forall|j: int| 0 <= j < i ==> !tier_applies(min_allies@, nearby@, j),
            },
        decreases min_allies@.len() - i,
    {
        if nearby[i] >= min_allies[i] {
            match best {
                Some(b) => {
                    if min_allies[i] >= min_allies[b] {
                        proof {
                            assert forall|j: int|
                                0 <= j < i + 1 && j != i && tier_applies(min_allies@, nearby@, j) implies tried_before(
                                    min_allies@,
                                    i as int,
                                    j,
                                ) by {
                                if j != b {
                                    assert(tried_before(min_allies@, b as int, j));
                                }
                            }
                        }
                        best = Some(i);
                    }
                },
                None => {
                    best = Some(i);
                },
            }
        }
        i = i + 1;
    }
    best
}

/// Radius of a bonfire's effect when its skill names none.
pub const DEFAULT_BONFIRE_RADIUS: i32 = 600;

/// How far a bonfire looks for allies by default.
pub const BONFIRE_DEFAULT_SEARCH_RADIUS: i32 = 1200;

/// The radius a bonfire skill heals in: its scope, else its cast range, else
/// the default.
pub fn get_bonfire_effect_radius(scope: i32, cast_range: i32) -> (r: i32)
    ensures
        r == if scope > 0 {
            scope
        } else if cast_range > 0 {
            cast_range
        } else {
            DEFAULT_BONFIRE_RADIUS
        },
{
    if scope > 0 {
        scope
    } else if cast_range > 0 {
        cast_range
    } else {
        DEFAULT_BONFIRE_RADIUS
    }
}

/// A bonfire tier: how many allies must be near for it, how far they are
/// counted, how far it heals, and what it heals.
#[derive(Debug, Clone, Copy, PartialEq, Eq, Structural)]
pub struct BonfireTierSettings {
    pub min_nearby_allies: usize,
    pub search_radius: i32,
    pub radius: i32,
    pub hp_heal: i32,
    pub mp_heal: i32,
}

/// The tiers a bonfire has unless its skill says otherwise: four or more
/// allies heal 60 health and 30 mana, two or more 75 and 45, fewer 90 and 60.
pub fn default_bonfire_tiers() -> (r: Vec<BonfireTierSettings>)
    ensures
        r@ == seq![
            BonfireTierSettings { min_nearby_allies: 4, search_radius: 1200, radius: 1000, hp_heal: 60, mp_heal: 30 },
            BonfireTierSettings { min_nearby_allies: 2, search_radius: 1200, radius: 1000, hp_heal: 75, mp_heal: 45 },
            BonfireTierSettings { min_nearby_allies: 0, search_radius: 1200, radius: 1000, hp_heal: 90, mp_heal: 60 },
        ],
{
    let mut tiers: Vec<BonfireTierSettings> = Vec::new();
    tiers.push(BonfireTierSettings {
        min_nearby_allies: 4,
        search_radius: BONFIRE_DEFAULT_SEARCH_RADIUS,
        radius: 1000,
        hp_heal: 20 * BONFIRE_HP_BALANCE_MULTIPLIER,
        mp_heal: 10 * BONFIRE_MP_BALANCE_MULTIPLIER,
    });
    tiers.push(BonfireTierSettings {
        min_nearby_allies: 2,
        search_radius: BONFIRE_DEFAULT_SEARCH_RADIUS,
        radius: 1000,
        hp_heal: 25 * BONFIRE_HP_BALANCE_MULTIPLIER,
        mp_heal: 15 * BONFIRE_MP_BALANCE_MULTIPLIER,
    });
    tiers.push(BonfireTierSettings {
        min_nearby_allies: 0,
        search_radius: BONFIRE_DEFAULT_SEARCH_RADIUS,
        radius: 1000,
        hp_heal: 30 * BONFIRE_HP_BALANCE_MULTIPLIER,
        mp_heal: 20 * BONFIRE_MP_BALANCE_MULTIPLIER,
    });
    assert(tiers@ =~= seq![
        BonfireTierSettings { min_nearby_allies: 4, search_radius: 1200, radius: 1000, hp_heal: 60, mp_heal: 30 },
        BonfireTierSettings { min_nearby_allies: 2, search_radius: 1200, radius: 1000, hp_heal: 75, mp_heal: 45 },
        BonfireTierSettings { min_nearby_allies: 0, search_radius: 1200, radius: 1000, hp_heal: 90, mp_heal: 60 },
    ]);
    tiers
}

/// A burning bonfire: whose it is, and its pulse clock.
#[derive(Debug, Clone, Copy, PartialEq, Eq)]
pub struct BonfireAura {
    pub owner_entity: Entity,
    pub owner_party: Option<Entity>,
    pub pulse_interval: Duration,
    pub elapsed: Duration,
}

impl BonfireAura {
    /// A bonfire just lit: no time has passed since its last pulse.
    pub fn new(owner_entity: Entity, owner_party: Option<Entity>, pulse_interval: Duration) -> (r: BonfireAura)
        ensures
            r.owner_entity == owner_entity,
            r.owner_party == owner_party,
            r.pulse_interval == pulse_interval,
            r.elapsed.spec_nanos() == 0,
    {
        BonfireAura { owner_entity, owner_party, pulse_interval, elapsed: Duration::zero() }
    }

    /// Makes the next tick pulse at once.
    pub fn pulse_immediately(&mut self)
        ensures
            final(self).elapsed == old(self).pulse_interval,
            final(self).pulse_interval == old(self).pulse_interval,
            final(self).owner_entity == old(self).owner_entity,
            final(self).owner_party == old(self).owner_party,
    {
        self.elapsed = self.pulse_interval;
    }

    /// Lets `delta` pass: the bonfire pulses once a whole interval has passed
    /// since the last pulse, and the interval is then taken off the time
    /// passed.
    pub fn advance_pulse(&mut self, delta: Duration) -> (r: bool)
        requires
            old(self).elapsed.spec_nanos() + delta.spec_nanos() <= max_span(),
        ensures
            ({
                let t = old(self).elapsed.spec_nanos() + delta.spec_nanos();
                &&& r == (t >= old(self).pulse_interval.spec_nanos())
                &&& final(self).elapsed.spec_nanos() == if r {
                    (t - old(self).pulse_interval.spec_nanos()) as nat
                } else {
                    t
                }
            }),
            final(self).pulse_interval == old(self).pulse_interval,
            final(self).owner_entity == old(self).owner_entity,
            final(self).owner_party == old(self).owner_party,
    {
        self.elapsed = self.elapsed.saturating_add(delta);
        if self.elapsed.as_nanos() < self.pulse_interval.as_nanos() {
            return false;
        }
        self.elapsed = self.elapsed.saturating_sub(self.pulse_interval);
        true
    }
}

/// The health and mana all `heals` give together.
pub open spec fn heal_sum(heals: Seq<(i32, i32)>) -> (int, int)
    decreases heals.len(),
{
    if heals.len() == 0 {
        (0, 0)
    } else {
        let (h, m) = heal_sum(heals.drop_last());
        (h + heals.last().0, m + heals.last().1)
    }
}

/// Every partial sum of `heals` fits in an `i32`.
pub open spec fn heals_fit(heals: Seq<(i32, i32)>) -> bool {
    forall|k: int| 0 <= k <= heals.len() ==> {
        let (h, m) = #[trigger] heal_sum(heals.take(k));
        i32::MIN <= h <= i32::MAX && i32::MIN <= m <= i32::MAX
    }
}

/// What the pulses reaching a character do to it: a living character gains
/// the health and mana of all of them, not above its maxima; the answer
/// says whether health and mana changed (each change is told to its
/// client). A character without health gains nothing.
pub open spec fn spec_bonfire_heal(
    hp: i32,
    mp: i32,
    max_hp: i32,
    max_mp: i32,
    heals: Seq<(i32, i32)>,
) -> (i32, i32, bool, bool) {
    if hp <= 0 {
        (hp, mp, false, false)
    } else {
        let (h, m) = heal_sum(heals);
        if h == 0 && m == 0 {
            (hp, mp, false, false)
        } else {
            let nh = if hp + h < max_hp { hp + h } else { max_hp as int };
            let nm = if mp + m < max_mp { mp + m } else { max_mp as int };
            (nh as i32, nm as i32, nh != hp, nm != mp)
        }
    }
}

/// Heals a character by the pulses that reach it (`heals`: the health and
/// mana of each bonfire pulse whose owner it warms and whose radius it
/// stands in).
pub fn bonfire_heal(hp: i32, mp: i32, max_hp: i32, max_mp: i32, heals: &Vec<(i32, i32)>) -> (r: (
    i32,
    i32,
    bool,
    bool,
))
    requires
        heals_fit(heals@),
        hp > 0 ==> i32::MIN <= hp + heal_sum(heals@).0 <= i32::MAX && i32::MIN <= mp + heal_sum(heals@).1
            <= i32::MAX,
    ensures
        r == spec_bonfire_heal(hp, mp, max_hp, max_mp, heals@),
{
    if hp <= 0 {
        return (hp, mp, false, false);
    }
    let mut h: i32 = 0;
    let mut m: i32 = 0;
    let mut i: usize = 0;
    assert(heals@.take(0) =~= Seq::<(i32, i32)>::empty());
    while i < heals.len()
        invariant
            i <= heals@.len(),
            heals_fit(heals@),
            (h as int, m as int) == heal_sum(heals@.take(i as int)),
        decreases heals@.len() - i,
    {
        let (dh, dm) = heals[i];
        proof {
            assert(heals@.take(i + 1).drop_last() =~= heals@.take(i as int));
            assert(heals@.take(i + 1).last() == heals@[i as int]);
            let k = i + 1;
            assert(0 <= k <= heals@.len());
            let (sh, sm) = heal_sum(heals@.take(k));
            assert(i32::MIN <= sh <= i32::MAX && i32::MIN <= sm <= i32::MAX);
        }
        h = h + dh;
        m = m + dm;
        i = i + 1;
    }
    assert(heals@.take(heals@.len() as int) =~= heals@);
    if h == 0 && m == 0 {
        return (hp, mp, false, false);
    }
    let sh = hp + h;
    let sm = mp + m;
    let nh = if sh < max_hp { sh } else { max_hp };
    let nm = if sm < max_mp { sm } else { max_mp };
    (nh, nm, nh != hp, nm != mp)
}

} // verus!
