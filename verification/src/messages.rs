//! Status effects as clients see them, and the messages the server queues
//! for the clients that can see an entity.
use vstd::prelude::*;

use crate::entity::{ClientEntity, ClientEntityId, Position};

verus! {

/// The kinds of status effect an entity can be under, at most one of each.
#[derive(Debug, Clone, Copy, PartialEq, Eq, Structural)]
pub enum StatusEffectType {
    IncreaseHp,
    IncreaseMp,
    Poisoned,
    IncreaseMaxHp,
    IncreaseMaxMp,
    IncreaseMoveSpeed,
    DecreaseMoveSpeed,
    IncreaseAttackSpeed,
    DecreaseAttackSpeed,
    IncreaseAttackPower,
    DecreaseAttackPower,
    IncreaseDefence,
    DecreaseDefence,
    IncreaseResistance,
    DecreaseResistance,
    IncreaseHit,
    DecreaseHit,
    IncreaseCritical,
    DecreaseCritical,
    IncreaseAvoid,
    DecreaseAvoid,
    Dumb,
    Sleep,
    Fainting,
    Disguise,
    Transparent,
    ShieldDamage,
    AdditionalDamageRate,
    DecreaseLifeTime,
    ClearGood,
    ClearBad,
    ClearAll,
    ClearInvisible,
    Taunt,
    Revive,
}

/// How many kinds of status effect there are.
pub const STATUS_EFFECT_TYPE_COUNT: usize = 35;

impl StatusEffectType {
    /// The kind's place in a table of all kinds.
    pub open spec fn spec_index(self) -> int {
        match self {
            StatusEffectType::IncreaseHp => 0,
            StatusEffectType::IncreaseMp => 1,
            StatusEffectType::Poisoned => 2,
            StatusEffectType::IncreaseMaxHp => 3,
            StatusEffectType::IncreaseMaxMp => 4,
            StatusEffectType::IncreaseMoveSpeed => 5,
            StatusEffectType::DecreaseMoveSpeed => 6,
            StatusEffectType::IncreaseAttackSpeed => 7,
            StatusEffectType::DecreaseAttackSpeed => 8,
            StatusEffectType::IncreaseAttackPower => 9,
            StatusEffectType::DecreaseAttackPower => 10,
            StatusEffectType::IncreaseDefence => 11,
            StatusEffectType::DecreaseDefence => 12,
            StatusEffectType::IncreaseResistance => 13,
            StatusEffectType::DecreaseResistance => 14,
            StatusEffectType::IncreaseHit => 15,
            StatusEffectType::DecreaseHit => 16,
            StatusEffectType::IncreaseCritical => 17,
            StatusEffectType::DecreaseCritical => 18,
            StatusEffectType::IncreaseAvoid => 19,
            StatusEffectType::DecreaseAvoid => 20,
            StatusEffectType::Dumb => 21,
            StatusEffectType::Sleep => 22,
            StatusEffectType::Fainting => 23,
            StatusEffectType::Disguise => 24,
            StatusEffectType::Transparent => 25,
            StatusEffectType::ShieldDamage => 26,
            StatusEffectType::AdditionalDamageRate => 27,
            StatusEffectType::DecreaseLifeTime => 28,
            StatusEffectType::ClearGood => 29,
            StatusEffectType::ClearBad => 30,
            StatusEffectType::ClearAll => 31,
            StatusEffectType::ClearInvisible => 32,
            StatusEffectType::Taunt => 33,
            StatusEffectType::Revive => 34,
        }
    }

    pub fn index(&self) -> (r: usize)
        ensures
            r == self.spec_index(),
            r < STATUS_EFFECT_TYPE_COUNT,
    {
        match self {
            StatusEffectType::IncreaseHp => 0,
            StatusEffectType::IncreaseMp => 1,
            StatusEffectType::Poisoned => 2,
            StatusEffectType::IncreaseMaxHp => 3,
            StatusEffectType::IncreaseMaxMp => 4,
            StatusEffectType::IncreaseMoveSpeed => 5,
            StatusEffectType::DecreaseMoveSpeed => 6,
            StatusEffectType::IncreaseAttackSpeed => 7,
            StatusEffectType::DecreaseAttackSpeed => 8,
            StatusEffectType::IncreaseAttackPower => 9,
            StatusEffectType::DecreaseAttackPower => 10,
            StatusEffectType::IncreaseDefence => 11,
            StatusEffectType::DecreaseDefence => 12,
            StatusEffectType::IncreaseResistance => 13,
            StatusEffectType::DecreaseResistance => 14,
            StatusEffectType::IncreaseHit => 15,
            StatusEffectType::DecreaseHit => 16,
            StatusEffectType::IncreaseCritical => 17,
            StatusEffectType::DecreaseCritical => 18,
            StatusEffectType::IncreaseAvoid => 19,
            StatusEffectType::DecreaseAvoid => 20,
            StatusEffectType::Dumb => 21,
            StatusEffectType::Sleep => 22,
            StatusEffectType::Fainting => 23,
            StatusEffectType::Disguise => 24,
            StatusEffectType::Transparent => 25,
            StatusEffectType::ShieldDamage => 26,
            StatusEffectType::AdditionalDamageRate => 27,
            StatusEffectType::DecreaseLifeTime => 28,
            StatusEffectType::ClearGood => 29,
            StatusEffectType::ClearBad => 30,
            StatusEffectType::ClearAll => 31,
            StatusEffectType::ClearInvisible => 32,
            StatusEffectType::Taunt => 33,
            StatusEffectType::Revive => 34,
        }
    }
}

/// A status effect number of the status effect table, never zero.
#[derive(Debug, Clone, Copy, PartialEq, Eq, Structural)]
pub struct StatusEffectId {
    id: u16,
}

impl StatusEffectId {
    pub closed spec fn spec_get(self) -> u16 {
        self.id
    }

    pub fn new(id: u16) -> (r: Option<StatusEffectId>)
        ensures
            id == 0 ==> r is None,
            id != 0 ==> (r matches Some(s) && s.spec_get() == id),
    {
        if id == 0 {
            None
        } else {
            Some(StatusEffectId { id })
        }
    }

    pub fn get(&self) -> (r: u16)
        ensures
            r == self.spec_get(),
    {
        self.id
    }
}

/// A status effect in force: which one, and its strength.
#[derive(Debug, Clone, Copy, PartialEq, Eq, Structural)]
pub struct ActiveStatusEffect {
    pub id: StatusEffectId,
    pub value: i32,
}

/// For each kind of status effect, the one in force, if any.
#[derive(Debug)]
pub struct ActiveStatusEffects {
    slots: Vec<Option<ActiveStatusEffect>>,
}

impl ActiveStatusEffects {
    /// The effect in force of each kind, by the kind's index.
    pub closed spec fn spec_slots(&self) -> Seq<Option<ActiveStatusEffect>> {
        self.slots@
    }

    pub closed spec fn wf(&self) -> bool {
        self.slots@.len() == STATUS_EFFECT_TYPE_COUNT
    }

    /// The effect of kind `t` in force.
    pub open spec fn spec_get(&self, t: StatusEffectType) -> Option<ActiveStatusEffect> {
        self.spec_slots()[t.spec_index()]
    }

    /// No effect in force.
    pub fn new() -> (r: ActiveStatusEffects)
        ensures
            r.wf(),
            forall|t: StatusEffectType| #[trigger] r.spec_get(t) is None,
    {
        let mut slots: Vec<Option<ActiveStatusEffect>> = Vec::new();
        let mut i: usize = 0;
        while i < STATUS_EFFECT_TYPE_COUNT
            invariant
                i <= STATUS_EFFECT_TYPE_COUNT,
                slots@.len() == i,
                forall|j: int| 0 <= j < i ==> #[trigger] slots@[j] is None,
            decreases STATUS_EFFECT_TYPE_COUNT - i,
        {
            slots.push(None);
            i = i + 1;
        }
        let r = ActiveStatusEffects { slots };
        assert forall|t: StatusEffectType| #[trigger] r.spec_get(t) is None by {
            assert(0 <= t.spec_index() < STATUS_EFFECT_TYPE_COUNT);
        }
        r
    }

    /// The effect of kind `t` in force.
    pub fn get(&self, t: StatusEffectType) -> (r: Option<ActiveStatusEffect>)
        requires
            self.wf(),
        ensures
            r == self.spec_get(t),
    {
        self.slots[t.index()]
    }

    /// Puts `effect` in force for kind `t` (or none).
    pub fn set(&mut self, t: StatusEffectType, effect: Option<ActiveStatusEffect>)
        requires
            old(self).wf(),
        ensures
            final(self).wf(),
            final(self).spec_get(t) == effect,
            forall|u: StatusEffectType| u != t ==> #[trigger] final(self).spec_get(u) == old(self).spec_get(u),
    {
        let i = t.index();
        self.slots.set(i, effect);
        assert forall|u: StatusEffectType| u != t implies #[trigger] self.spec_get(u) == old(self).spec_get(u) by {
            assert(u.spec_index() != t.spec_index());
        }
    }

    /// A copy of the effects in force.
    pub fn snapshot(&self) -> (r: ActiveStatusEffects)
        ensures
            r.spec_slots() == self.spec_slots(),
            self.wf() ==> r.wf(),
    {
        let mut slots: Vec<Option<ActiveStatusEffect>> = Vec::new();
        let mut i: usize = 0;
        while i < self.slots.len()
            invariant
                i <= self.slots@.len(),
                slots@ == self.slots@.take(i as int),
            decreases self.slots@.len() - i,
        {
            slots.push(self.slots[i]);
            assert(slots@ =~= self.slots@.take(i + 1));
            i = i + 1;
        }
        assert(self.slots@.take(self.slots@.len() as int) =~= self.slots@);
        ActiveStatusEffects { slots }
    }
}

/// The status effects of an entity.
#[derive(Debug)]
pub struct StatusEffects {
    pub active: ActiveStatusEffects,
}

impl StatusEffects {
    pub fn new() -> (r: StatusEffects)
        ensures
            r.active.wf(),
            forall|t: StatusEffectType| #[trigger] r.active.spec_get(t) is None,
    {
        StatusEffects { active: ActiveStatusEffects::new() }
    }
}

/// What the server tells clients.
#[derive(Debug)]
pub enum ServerMessage {
    /// The entity stops where it stands (x, y and z as raw `f32` bits).
    StopMoveEntity { entity_id: ClientEntityId, x: u32, y: u32, z: u32 },
    /// The entity's status effects, as the server holds them.
    UpdateStatusEffects {
        entity_id: ClientEntityId,
        status_effects: ActiveStatusEffects,
        updated_values: Vec<i32>,
    },
    /// A character's used and maximum summon points.
    UpdateSummonPoints { used_points: u16, max_points: u16 },
}

/// A message for the clients that can see an entity.
#[derive(Debug)]
pub struct PendingEntityMessage {
    pub client_entity_id: ClientEntityId,
    pub zone_id: u16,
    pub message: ServerMessage,
}

/// Messages waiting to be sent.
#[derive(Debug)]
pub struct ServerMessages {
    pub pending_entity_messages: Vec<PendingEntityMessage>,
}

impl ServerMessages {
    pub fn new() -> (r: ServerMessages)
        ensures
            r.pending_entity_messages@.len() == 0,
    {
        ServerMessages { pending_entity_messages: Vec::new() }
    }

    /// Queues `message` for the clients that can see `client_entity`.
    pub fn send_entity_message(&mut self, client_entity: &ClientEntity, message: ServerMessage)
        ensures
            final(self).pending_entity_messages@ == old(self).pending_entity_messages@.push(
                PendingEntityMessage {
                    client_entity_id: client_entity.id,
                    zone_id: client_entity.zone_id,
                    message,
                },
            ),
    {
        self.pending_entity_messages.push(
            PendingEntityMessage { client_entity_id: client_entity.id, zone_id: client_entity.zone_id, message },
        );
    }
}

/// The message telling clients that an entity stops at `position`.
pub open spec fn stop_move_message(client_entity: ClientEntity, position: Position) -> PendingEntityMessage {
    PendingEntityMessage {
        client_entity_id: client_entity.id,
        zone_id: client_entity.zone_id,
        message: ServerMessage::StopMoveEntity {
            entity_id: client_entity.id,
            x: position.x,
            y: position.y,
            z: position.z,
        },
    }
}

/// Queues the message that an entity stops where it stands.
pub fn queue_stop_move_entity_message(
    server_messages: &mut ServerMessages,
    client_entity: &ClientEntity,
    position: &Position,
)
    ensures
        final(server_messages).pending_entity_messages@ == old(server_messages).pending_entity_messages@.push(
            stop_move_message(*client_entity, *position),
        ),
{
    server_messages.send_entity_message(
        client_entity,
        ServerMessage::StopMoveEntity { entity_id: client_entity.id, x: position.x, y: position.y, z: position.z },
    );
}

/// Queues the status effects that the server holds for a skill's target.
pub fn send_skill_target_status_effects_update(
    server_messages: &mut ServerMessages,
    client_entity: &ClientEntity,
    status_effects: &StatusEffects,
)
    ensures
        final(server_messages).pending_entity_messages@.len() == old(server_messages).pending_entity_messages@.len() + 1,
        forall|i: int| 0 <= i < old(server_messages).pending_entity_messages@.len() ==> #[trigger] final(server_messages).pending_entity_messages@[i]
            == old(server_messages).pending_entity_messages@[i],
        final(server_messages).pending_entity_messages@.last() matches PendingEntityMessage {
            client_entity_id,
            zone_id,
            message: ServerMessage::UpdateStatusEffects { entity_id, status_effects: effects, updated_values },
        } && client_entity_id == client_entity.id && zone_id == client_entity.zone_id && entity_id
            == client_entity.id && effects.spec_slots() == status_effects.active.spec_slots()
            && updated_values@.len() == 0,
{
    let effects = status_effects.active.snapshot();
    server_messages.send_entity_message(
        client_entity,
        ServerMessage::UpdateStatusEffects { entity_id: client_entity.id, status_effects: effects, updated_values: Vec::new() },
    );
}

/// The summon points message: used and maximum points, each capped at the
/// largest `u16`.
pub fn summon_points_update_message(used_points: u32, max_points: u32) -> (r: ServerMessage)
    ensures
        r matches ServerMessage::UpdateSummonPoints { used_points: u, max_points: m } && u == (if used_points
            > u16::MAX {
            u16::MAX as u32
        } else {
            used_points
        }) && m == (if max_points > u16::MAX {
            u16::MAX as u32
        } else {
            max_points
        }),
{
    let u = if used_points > 0xffff { 0xffff } else { used_points as u16 };
    let m = if max_points > 0xffff { 0xffff } else { max_points as u16 };
    ServerMessage::UpdateSummonPoints { used_points: u, max_points: m }
}

} // verus!
