//! What entities are doing: their current and queued commands, when the
//! status effects that disable actions and skills stop them, what follows a
//! skill, and which targets a command or a skill may take.
use vstd::prelude::*;

use crate::entity::{ClientEntity, ClientEntityType, Entity, Position, DEFAULT_NPC_TEAM_ID};
use crate::ifo::Vec3Bits;
use crate::messages::{stop_move_message, ServerMessage, ServerMessages};
use crate::pvp::{can_character_attack_character, spec_can_attack};

verus! {

/// How an entity moves.
#[derive(Debug, Clone, Copy, PartialEq, Eq, Structural)]
pub enum MoveMode {
    Walk,
    Run,
    Drive,
}

/// A skill number of the skill table, never zero.
#[derive(Debug, Clone, Copy, PartialEq, Eq, Structural)]
pub struct SkillId {
    id: u16,
}

impl SkillId {
    pub closed spec fn spec_get(self) -> u16 {
        self.id
    }

    pub fn new(id: u16) -> (r: Option<SkillId>)
        ensures
            id == 0 ==> r is None,
            id != 0 ==> (r matches Some(s) && s.spec_get() == id),
    {
        if id == 0 {
            None
        } else {
            Some(SkillId { id })
        }
    }

    pub fn get(&self) -> (r: u16)
        ensures
            r == self.spec_get(),
    {
        self.id
    }
}

/// Where a skill is cast: at an entity or at a point (raw `f32` bits).
#[derive(Debug, Clone, Copy, PartialEq, Eq, Structural)]
pub enum CommandCastSkillTarget {
    Entity(Entity),
    Position { x: u32, y: u32 },
}

/// Damage dealt, as a dying command records it.
#[derive(Debug, Clone, Copy, PartialEq, Eq, Structural)]
pub struct Damage {
    pub amount: u32,
    pub is_critical: bool,
    pub apply_hit_stun: bool,
}

/// What an entity is doing.
#[derive(Debug)]
pub enum CommandData {
    Die { killer: Option<Entity>, damage: Option<Damage> },
    Stop { send_message: bool },
    Move { destination: Vec3Bits, target: Option<Entity>, move_mode: Option<MoveMode> },
    Attack { target: Entity },
    PickupItemDrop { target: Entity },
    PersonalStore,
    CastSkill {
        skill_id: SkillId,
        skill_target: Option<CommandCastSkillTarget>,
        cast_motion_id: Option<u16>,
        action_motion_id: Option<u16>,
        restore_command: Option<Box<CommandData>>,
    },
    Emote { motion_id: u16, is_stop: bool },
    Sit,
    Sitting,
    Standing,
}

impl CommandData {
    /// A copy of the command.
    pub fn duplicate(&self) -> (r: CommandData)
        ensures
            r == *self,
        decreases self,
    {
        match self {
            CommandData::Die { killer, damage } => CommandData::Die { killer: *killer, damage: *damage },
            CommandData::Stop { send_message } => CommandData::Stop { send_message: *send_message },
            CommandData::Move { destination, target, move_mode } => CommandData::Move {
                destination: *destination,
                target: *target,
                move_mode: *move_mode,
            },
            CommandData::Attack { target } => CommandData::Attack { target: *target },
            CommandData::PickupItemDrop { target } => CommandData::PickupItemDrop { target: *target },
            CommandData::PersonalStore => CommandData::PersonalStore,
            CommandData::CastSkill {
                skill_id,
                skill_target,
                cast_motion_id,
                action_motion_id,
                restore_command,
            } => {
                let restore = match restore_command {
                    Some(b) => Some(Box::new((**b).duplicate())),
                    None => None,
                };
                CommandData::CastSkill {
                    skill_id: *skill_id,
                    skill_target: *skill_target,
                    cast_motion_id: *cast_motion_id,
                    action_motion_id: *action_motion_id,
                    restore_command: restore,
                }
            },
            CommandData::Emote { motion_id, is_stop } => CommandData::Emote {
                motion_id: *motion_id,
                is_stop: *is_stop,
            },
            CommandData::Sit => CommandData::Sit,
            CommandData::Sitting => CommandData::Sitting,
            CommandData::Standing => CommandData::Standing,
        }
    }
}

/// An entity's current command.
#[derive(Debug)]
pub struct Command {
    pub command: CommandData,
}

impl Command {
    /// Standing still, telling clients so.
    pub fn with_stop() -> (r: Command)
        ensures
            r.command == (CommandData::Stop { send_message: true }),
    {
        Command { command: CommandData::Stop { send_message: true } }
    }

    /// Moving to `destination`.
    pub fn with_move(destination: Vec3Bits, target: Option<Entity>, move_mode: Option<MoveMode>) -> (r: Command)
        ensures
            r.command == (CommandData::Move { destination, target, move_mode }),
    {
        Command { command: CommandData::Move { destination, target, move_mode } }
    }

    /// Casting `skill_id`.
    pub fn with_cast_skill(skill_id: SkillId, skill_target: Option<CommandCastSkillTarget>) -> (r: Command)
        ensures
            r.command == (CommandData::CastSkill {
                skill_id,
                skill_target,
                cast_motion_id: None,
                action_motion_id: None,
                restore_command: None,
            }),
    {
        Command {
            command: CommandData::CastSkill {
                skill_id,
                skill_target,
                cast_motion_id: None,
                action_motion_id: None,
                restore_command: None,
            },
        }
    }

    /// The entity stands still.
    pub fn is_stop(&self) -> (r: bool)
        ensures
            r == self.command is Stop,
    {
        matches!(self.command, CommandData::Stop { .. })
    }
}

/// The command an entity takes up next, and whether clients were already
/// told of it.
#[derive(Debug)]
pub struct NextCommand {
    pub command: Option<CommandData>,
    pub has_sent_server_message: bool,
}

impl NextCommand {
    /// Nothing queued.
    pub fn new() -> (r: NextCommand)
        ensures
            r.command is None,
            !r.has_sent_server_message,
    {
        NextCommand { command: None, has_sent_server_message: false }
    }

    /// `command` queued, with clients already told.
    pub fn with_command_skip_server_message(command: CommandData) -> (r: NextCommand)
        ensures
            r.command == Some(command),
            r.has_sent_server_message,
    {
        NextCommand { command: Some(command), has_sent_server_message: true }
    }

    /// Sitting down queued.
    pub fn with_sitting() -> (r: NextCommand)
        ensures
            r.command == Some(CommandData::Sitting),
            !r.has_sent_server_message,
    {
        NextCommand { command: Some(CommandData::Sitting), has_sent_server_message: false }
    }

    /// Standing up queued.
    pub fn with_standing() -> (r: NextCommand)
        ensures
            r.command == Some(CommandData::Standing),
            !r.has_sent_server_message,
    {
        NextCommand { command: Some(CommandData::Standing), has_sent_server_message: false }
    }

    /// An attack on `target` queued.
    pub fn with_attack(target: Entity) -> (r: NextCommand)
        ensures
            r.command == Some(CommandData::Attack { target }),
            !r.has_sent_server_message,
    {
        NextCommand { command: Some(CommandData::Attack { target }), has_sent_server_message: false }
    }

    /// A skill cast on oneself queued.
    pub fn with_cast_skill_target_self(skill_id: SkillId) -> (r: NextCommand)
        ensures
            r.command == Some(
                CommandData::CastSkill {
                    skill_id,
                    skill_target: None,
                    cast_motion_id: None,
                    action_motion_id: None,
                    restore_command: None,
                },
            ),
            !r.has_sent_server_message,
    {
        NextCommand {
            command: Some(
                CommandData::CastSkill {
                    skill_id,
                    skill_target: None,
                    cast_motion_id: None,
                    action_motion_id: None,
                    restore_command: None,
                },
            ),
            has_sent_server_message: false,
        }
    }
}

/// Stops the entity, and when `notify` is set tells clients so.
pub fn command_stop(
    command: &mut Command,
    client_entity: &ClientEntity,
    position: &Position,
    server_messages: &mut ServerMessages,
    notify: bool,
)
    ensures
        final(command).command == (CommandData::Stop { send_message: true }),
        notify ==> final(server_messages).pending_entity_messages@ == old(server_messages).pending_entity_messages@.push(
            stop_move_message(*client_entity, *position),
        ),
        !notify ==> final(server_messages).pending_entity_messages@ == old(server_messages).pending_entity_messages@,
{
    if notify {
        server_messages.send_entity_message(
            client_entity,
            ServerMessage::StopMoveEntity { entity_id: client_entity.id, x: position.x, y: position.y, z: position.z },
        );
    }
    *command = Command::with_stop();
}

/// A disabled entity may still stop and die, nothing else.
pub fn command_is_blocked_by_action_disable(command: &CommandData) -> (r: bool)
    ensures
        r == !(command is Stop || command is Die),
{
    !matches!(command, CommandData::Stop { .. } | CommandData::Die { .. })
}

/// An entity that may not use skills may not cast.
pub fn command_is_blocked_by_skill_disable(command: &CommandData) -> (r: bool)
    ensures
        r == command is CastSkill,
{
    matches!(command, CommandData::CastSkill { .. })
}

/// Stops a cast in progress and drops a queued cast of an entity that may
/// no longer use skills; tells clients when the current command stops, and
/// says whether it did.
pub fn clear_skill_use_disabled_target(
    command: &mut Command,
    next_command: &mut NextCommand,
    client_entity: &ClientEntity,
    position: &Position,
    server_messages: &mut ServerMessages,
) -> (stopped: bool)
    ensures
        stopped == old(command).command is CastSkill,
        stopped ==> final(command).command == (CommandData::Stop { send_message: true }),
        !stopped ==> final(command).command == old(command).command,
        (old(next_command).command matches Some(c) && c is CastSkill) ==> (final(next_command).command is None
            && !final(next_command).has_sent_server_message),
        !(old(next_command).command matches Some(c) && c is CastSkill) ==> *final(next_command) == *old(next_command),
        stopped ==> final(server_messages).pending_entity_messages@ == old(server_messages).pending_entity_messages@.push(stop_move_message(*client_entity, *position)),
        !stopped ==> final(server_messages).pending_entity_messages@ == old(server_messages).pending_entity_messages@,
{
    let should_stop_current = command_is_blocked_by_skill_disable(&command.command);
    let should_clear_next = match &next_command.command {
        Some(c) => command_is_blocked_by_skill_disable(c),
        None => false,
    };
    if should_stop_current {
        command_stop(command, client_entity, position, server_messages, true);
    }
    if should_clear_next {
        *next_command = NextCommand::new();
    }
    should_stop_current
}

/// What an entity does after a skill.
#[derive(Debug, Clone, Copy, PartialEq, Eq, Structural)]
pub enum SkillActionMode {
    Stop,
    Attack,
    Restore,
}

/// What an entity takes up after a skill: nothing after a stopping skill;
/// an attack on the target after an attacking one; after a restoring one,
/// the command stored with the cast, else the current command when it is a
/// stop, a move or an attack, else nothing. Clients are not told again.
pub fn get_skill_followup_command(
    action_mode: SkillActionMode,
    target_entity: Option<Entity>,
    current_command: &CommandData,
    stored_restore_command: Option<&CommandData>,
) -> (r: NextCommand)
    ensures
        match action_mode {
            SkillActionMode::Stop => r.command is None && !r.has_sent_server_message,
            SkillActionMode::Attack => match target_entity {
                Some(t) => r.command == Some(CommandData::Attack { target: t }) && r.has_sent_server_message,
                None => r.command is None && !r.has_sent_server_message,
            },
            SkillActionMode::Restore => match stored_restore_command {
                Some(c) => r.command == Some(*c) && r.has_sent_server_message,
                None => if current_command is Stop || current_command is Move || current_command is Attack {
                    r.command == Some(*current_command) && r.has_sent_server_message
                } else {
                    r.command is None && !r.has_sent_server_message
                },
            },
        },
{
    match action_mode {
        SkillActionMode::Stop => NextCommand::new(),
        SkillActionMode::Attack => match target_entity {
            Some(target) => NextCommand::with_command_skip_server_message(CommandData::Attack { target }),
            None => NextCommand::new(),
        },
        SkillActionMode::Restore => {
            if let Some(restore_command) = stored_restore_command {
                return NextCommand::with_command_skip_server_message(restore_command.duplicate());
            }
            match current_command {
                CommandData::Stop { .. } | CommandData::Move { .. } | CommandData::Attack { .. } => {
                    NextCommand::with_command_skip_server_message(current_command.duplicate())
                },
                _ => NextCommand::new(),
            }
        },
    }
}

/// An entity may move to a target in its own zone.
pub fn is_valid_move_target(target_position: &Position, position: &Position) -> (r: bool)
    ensures
        r == (target_position.zone_id == position.zone_id),
{
    target_position.zone_id == position.zone_id
}

/// The owner of a summon is idle: standing, sitting down or up, or keeping
/// a personal store.
pub fn is_idle_owner_command(command: &Command) -> (r: bool)
    ensures
        r == (command.command is Stop || command.command is Sit || command.command is Sitting
            || command.command is Standing || command.command is PersonalStore),
{
    matches!(
        command.command,
        CommandData::Stop { .. } | CommandData::Sit | CommandData::Sitting | CommandData::Standing
            | CommandData::PersonalStore
    )
}

/// Stops an entity whose actions are disabled and drops what it queued;
/// clients are told unless it was already standing with nothing queued.
pub fn stop_action_disabled_target(
    server_messages: &mut ServerMessages,
    client_entity: &ClientEntity,
    position: &Position,
    command: &mut Command,
    next_command: &mut NextCommand,
)
    ensures
        final(command).command == (CommandData::Stop { send_message: true }),
        final(next_command).command is None,
        !final(next_command).has_sent_server_message,
        (!(old(command).command is Stop) || old(next_command).command is Some) ==> final(server_messages).pending_entity_messages@ == old(server_messages).pending_entity_messages@.push(
            stop_move_message(*client_entity, *position),
        ),
        !(!(old(command).command is Stop) || old(next_command).command is Some) ==> final(server_messages).pending_entity_messages@ == old(server_messages).pending_entity_messages@,
{
    let should_send_stop = !command.is_stop() || next_command.command.is_some();
    *command = Command::with_stop();
    *next_command = NextCommand::new();
    if should_send_stop {
        server_messages.send_entity_message(
            client_entity,
            ServerMessage::StopMoveEntity { entity_id: client_entity.id, x: position.x, y: position.y, z: position.z },
        );
    }
}

/// Stops a cast in progress of an entity that may no longer use skills and
/// drops a queued cast; other commands stay. Clients are told when a cast
/// in progress stops.
pub fn stop_skill_use_disabled_target(
    server_messages: &mut ServerMessages,
    client_entity: &ClientEntity,
    position: &Position,
    command: &mut Command,
    next_command: &mut NextCommand,
)
    ensures
        old(command).command is CastSkill ==> final(command).command == (CommandData::Stop { send_message: true }),
        !(old(command).command is CastSkill) ==> final(command).command == old(command).command,
        (old(next_command).command matches Some(c) && c is CastSkill) ==> (final(next_command).command is None
            && !final(next_command).has_sent_server_message),
        !(old(next_command).command matches Some(c) && c is CastSkill) ==> *final(next_command) == *old(next_command),
        old(command).command is CastSkill ==> final(server_messages).pending_entity_messages@ == old(server_messages).pending_entity_messages@.push(stop_move_message(*client_entity, *position)),
        !(old(command).command is CastSkill) ==> final(server_messages).pending_entity_messages@ == old(server_messages).pending_entity_messages@,
{
    let should_send_stop = matches!(&command.command, CommandData::CastSkill { .. });
    let should_clear_next = match &next_command.command {
        Some(c) => matches!(c, CommandData::CastSkill { .. }),
        None => false,
    };
    if should_send_stop {
        *command = Command::with_stop();
    }
    if should_clear_next {
        *next_command = NextCommand::new();
    }
    if should_send_stop {
        server_messages.send_entity_message(
            client_entity,
            ServerMessage::StopMoveEntity { entity_id: client_entity.id, x: position.x, y: position.y, z: position.z },
        );
    }
}


// ---------------------------------------------------------------- targets

/// What the rules read of the entity a command aims at.
#[derive(Debug, Clone, Copy, PartialEq, Eq, Structural)]
pub struct AttackTarget {
    pub client_entity: ClientEntity,
    pub position: Position,
    pub hp: i32,
    pub team_id: u32,
}

/// An entity may attack a target that is another living entity in its zone:
/// between characters as the zone's PvP rules say (not at all where the zone
/// is unknown, `zone_pvp_state` being its PvP state and `pvp_enabled`
/// whether PvP is on), else when the target is on another team and not an
/// NPC.
pub fn is_valid_attack_target(
    target: &AttackTarget,
    client_entity: &ClientEntity,
    position: &Position,
    team_id: u32,
    zone_pvp_state: Option<u32>,
    pvp_enabled: bool,
) -> (r: bool)
    ensures
        r == if target.client_entity.id == client_entity.id || target.position.zone_id != position.zone_id
            || target.hp <= 0 {
            false
        } else if client_entity.entity_type == ClientEntityType::Character
            && target.client_entity.entity_type == ClientEntityType::Character {
            match zone_pvp_state {
                Some(state) => spec_can_attack(state, pvp_enabled, team_id, target.team_id),
                None => false,
            }
        } else {
            target.team_id != team_id && target.team_id != DEFAULT_NPC_TEAM_ID
        },
{
    if target.client_entity.id == client_entity.id {
        return false;
    }
    if target.position.zone_id != position.zone_id {
        return false;
    }
    if target.hp <= 0 {
        return false;
    }
    if matches!(client_entity.entity_type, ClientEntityType::Character)
        && matches!(target.client_entity.entity_type, ClientEntityType::Character) {
        return match zone_pvp_state {
            Some(state) => can_character_attack_character(state, pvp_enabled, team_id, target.team_id),
            None => false,
        };
    }
    if target.team_id == team_id || target.team_id == DEFAULT_NPC_TEAM_ID {
        return false;
    }
    true
}

/// A summoning skill may not be cast when the summon's points would take
/// the owner past its maximum: for a summon-pet skill whose summon is known
/// and costs points, the used points plus the cost (saturating) exceed the
/// maximum.
pub fn is_summon_points_limited(
    is_summon_pet_skill: bool,
    summon_point_requirement: Option<u32>,
    used_points: Option<u32>,
    max_summon_points: u32,
) -> (r: bool)
    ensures
        r == (is_summon_pet_skill && match summon_point_requirement {
            Some(req) => req != 0 && {
                let used: int = match used_points {
                    Some(u) => u as int,
                    None => 0,
                };
                let total: int = if used + req > u32::MAX {
                    u32::MAX as int
                } else {
                    used + req
                };
                total > max_summon_points
            },
            None => false,
        }),
{
    if !is_summon_pet_skill {
        return false;
    }
    let req = match summon_point_requirement {
        Some(r) => r,
        None => {
            return false;
        },
    };
    if req == 0 {
        return false;
    }
    let used = match used_points {
        Some(u) => u,
        None => 0,
    };
    used.saturating_add(req) > max_summon_points
}

/// Which entities a skill may target.
#[derive(Debug, Clone, Copy, PartialEq, Eq, Structural)]
pub enum SkillTargetFilter {
    OnlySelf,
    Group,
    Guild,
    Allied,
    Monster,
    Enemy,
    EnemyCharacter,
    Character,
    CharacterOrMonster,
    DeadAlliedCharacter,
    EnemyMonster,
}

/// What the skill rules read of a caster or a target.
#[derive(Debug, Clone, Copy, PartialEq, Eq, Structural)]
pub struct SkillParticipant {
    pub entity: Entity,
    pub client_entity: ClientEntity,
    pub position: Position,
    pub team_id: u32,
    pub hp: i32,
    /// The party the entity is in.
    pub party: Option<Entity>,
    /// The clan the entity is in.
    pub clan: Option<Entity>,
}

/// Characters on both sides: the zone's PvP rules decide, for a living
/// target other than the caster in the caster's zone (where the zone is
/// known).
pub open spec fn pvp_decides(
    caster: SkillParticipant,
    target: SkillParticipant,
    zone_pvp_state: Option<u32>,
    pvp_enabled: bool,
) -> bool {
    if caster.entity == target.entity || caster.position.zone_id != target.position.zone_id {
        false
    } else {
        match zone_pvp_state {
            Some(state) => spec_can_attack(state, pvp_enabled, caster.team_id, target.team_id),
            None => false,
        }
    }
}

/// Whether a skill with target filter `filter` may target `target`.
pub open spec fn spec_skill_target_ok(
    filter: SkillTargetFilter,
    caster: SkillParticipant,
    target: SkillParticipant,
    zone_pvp_state: Option<u32>,
    pvp_enabled: bool,
) -> bool {
    let alive = target.hp > 0;
    let is_caster = caster.entity == target.entity;
    let both_characters = caster.client_entity.entity_type == ClientEntityType::Character
        && target.client_entity.entity_type == ClientEntityType::Character;
    match filter {
        SkillTargetFilter::OnlySelf => alive && is_caster,
        SkillTargetFilter::Group => alive && (is_caster || (caster.party is Some && caster.party
            == target.party)),
        SkillTargetFilter::Guild => alive && (is_caster || (caster.clan is Some && caster.clan
            == target.clan)),
        SkillTargetFilter::Allied => alive && caster.team_id == target.team_id,
        SkillTargetFilter::Monster => alive && target.client_entity.entity_type
            == ClientEntityType::Monster,
        SkillTargetFilter::Enemy => if alive && both_characters {
            pvp_decides(caster, target, zone_pvp_state, pvp_enabled)
        } else {
            alive && target.team_id != DEFAULT_NPC_TEAM_ID && caster.team_id != target.team_id
        },
        SkillTargetFilter::EnemyCharacter => if alive && both_characters {
            pvp_decides(caster, target, zone_pvp_state, pvp_enabled)
        } else {
            alive && caster.team_id != target.team_id && target.client_entity.entity_type
                == ClientEntityType::Character
        },
        SkillTargetFilter::Character => alive && target.client_entity.entity_type
            == ClientEntityType::Character,
        SkillTargetFilter::CharacterOrMonster => alive && (target.client_entity.entity_type
            == ClientEntityType::Character || target.client_entity.entity_type
            == ClientEntityType::Monster),
        SkillTargetFilter::DeadAlliedCharacter => !alive && !is_caster && caster.team_id
            == target.team_id && target.client_entity.entity_type == ClientEntityType::Character,
        SkillTargetFilter::EnemyMonster => alive && caster.team_id != target.team_id
            && target.client_entity.entity_type == ClientEntityType::Monster,
    }
}

fn pvp_allows(
    caster: &SkillParticipant,
    target: &SkillParticipant,
    zone_pvp_state: Option<u32>,
    pvp_enabled: bool,
) -> (r: bool)
    ensures
        r == pvp_decides(*caster, *target, zone_pvp_state, pvp_enabled),
{
    if caster.entity == target.entity {
        return false;
    }
    if caster.position.zone_id != target.position.zone_id {
        return false;
    }
    match zone_pvp_state {
        Some(state) => can_character_attack_character(state, pvp_enabled, caster.team_id, target.team_id),
        None => false,
    }
}

/// Whether a skill with target filter `filter` may target `target` when
/// cast by `caster` (`zone_pvp_state` being the PvP state of the caster's
/// zone, `None` where the zone is unknown, and `pvp_enabled` whether PvP is
/// on there).
pub fn check_skill_target_filter(
    filter: SkillTargetFilter,
    caster: &SkillParticipant,
    target: &SkillParticipant,
    zone_pvp_state: Option<u32>,
    pvp_enabled: bool,
) -> (r: bool)
    ensures
        r == spec_skill_target_ok(filter, *caster, *target, zone_pvp_state, pvp_enabled),
{
    let alive = target.hp > 0;
    let is_caster = caster.entity == target.entity;
    let both_characters = matches!(caster.client_entity.entity_type, ClientEntityType::Character)
        && matches!(target.client_entity.entity_type, ClientEntityType::Character);
    match filter {
        SkillTargetFilter::OnlySelf => alive && is_caster,
        SkillTargetFilter::Group => alive && (is_caster || (caster.party.is_some() && caster.party
            == target.party)),
        SkillTargetFilter::Guild => alive && (is_caster || (caster.clan.is_some() && caster.clan
            == target.clan)),
        SkillTargetFilter::Allied => alive && caster.team_id == target.team_id,
        SkillTargetFilter::Monster => alive && matches!(
            target.client_entity.entity_type,
            ClientEntityType::Monster
        ),
        SkillTargetFilter::Enemy => {
            if alive && both_characters {
                return pvp_allows(caster, target, zone_pvp_state, pvp_enabled);
            }
            alive && target.team_id != DEFAULT_NPC_TEAM_ID && caster.team_id != target.team_id
        },
        SkillTargetFilter::EnemyCharacter => {
            if alive && both_characters {
                return pvp_allows(caster, target, zone_pvp_state, pvp_enabled);
            }
            alive && caster.team_id != target.team_id && matches!(
                target.client_entity.entity_type,
                ClientEntityType::Character
            )
        },
        SkillTargetFilter::Character => alive && matches!(
            target.client_entity.entity_type,
            ClientEntityType::Character
        ),
        SkillTargetFilter::CharacterOrMonster => alive && matches!(
            target.client_entity.entity_type,
            ClientEntityType::Character | ClientEntityType::Monster
        ),
        SkillTargetFilter::DeadAlliedCharacter => !alive && !is_caster && caster.team_id
            == target.team_id && matches!(target.client_entity.entity_type, ClientEntityType::Character),
        SkillTargetFilter::EnemyMonster => alive && caster.team_id != target.team_id && matches!(
            target.client_entity.entity_type,
            ClientEntityType::Monster
        ),
    }
}

/// A skill that targets only its caster can target nothing else, and one
/// that targets dead allies never targets the living: no filter lets a
/// skill reach both a living and a dead target in the same way.
pub proof fn lemma_skill_targets_alive_or_dead(
    filter: SkillTargetFilter,
    caster: SkillParticipant,
    target: SkillParticipant,
    zone_pvp_state: Option<u32>,
    pvp_enabled: bool,
)
    requires
        spec_skill_target_ok(filter, caster, target, zone_pvp_state, pvp_enabled),
    ensures
        filter == SkillTargetFilter::DeadAlliedCharacter <==> target.hp <= 0,
        filter == SkillTargetFilter::OnlySelf ==> caster.entity == target.entity,
{
}

/// Whom each kind of skill reaches. A party skill reaches the living caster,
/// or a living member of the caster's own party; a clan skill likewise with
/// the caster's clan: a caster in no party or clan reaches only itself, and
/// two strangers outside any party or clan never reach each other. An ally
/// skill reaches the living of the caster's team, a dead-ally skill only a
/// dead character of the caster's team other than the caster, a monster
/// skill only living monsters, an enemy skill against a non-character
/// target only a living one of another team that is not the NPC team, and a
/// character's own PvP rules decide between two characters.
pub proof fn lemma_skill_reach(
    caster: SkillParticipant,
    target: SkillParticipant,
    zone_pvp_state: Option<u32>,
    pvp_enabled: bool,
)
    ensures
        spec_skill_target_ok(SkillTargetFilter::Group, caster, target, zone_pvp_state, pvp_enabled)
            <==> (target.hp > 0 && (caster.entity == target.entity || (caster.party matches Some(
            p) && target.party == Some(p)))),
        spec_skill_target_ok(SkillTargetFilter::Guild, caster, target, zone_pvp_state, pvp_enabled)
            <==> (target.hp > 0 && (caster.entity == target.entity || (caster.clan matches Some(
            c) && target.clan == Some(c)))),
        caster.clan is None && caster.entity != target.entity ==> !spec_skill_target_ok(
            SkillTargetFilter::Guild,
            caster,
            target,
            zone_pvp_state,
            pvp_enabled,
        ),
        caster.party is None && caster.entity != target.entity ==> !spec_skill_target_ok(
            SkillTargetFilter::Group,
            caster,
            target,
            zone_pvp_state,
            pvp_enabled,
        ),
        spec_skill_target_ok(SkillTargetFilter::OnlySelf, caster, target, zone_pvp_state, pvp_enabled)
            <==> (target.hp > 0 && caster.entity == target.entity),
        spec_skill_target_ok(SkillTargetFilter::Allied, caster, target, zone_pvp_state, pvp_enabled)
            <==> (target.hp > 0 && caster.team_id == target.team_id),
        spec_skill_target_ok(SkillTargetFilter::Monster, caster, target, zone_pvp_state, pvp_enabled)
            <==> (target.hp > 0 && target.client_entity.entity_type is Monster),
        spec_skill_target_ok(
            SkillTargetFilter::DeadAlliedCharacter,
            caster,
            target,
            zone_pvp_state,
            pvp_enabled,
        ) <==> (target.hp <= 0 && caster.entity != target.entity && caster.team_id == target.team_id
            && target.client_entity.entity_type is Character),
        spec_skill_target_ok(SkillTargetFilter::EnemyMonster, caster, target, zone_pvp_state, pvp_enabled)
            <==> (target.hp > 0 && caster.team_id != target.team_id
            && target.client_entity.entity_type is Monster),
        !(caster.client_entity.entity_type is Character && target.client_entity.entity_type is Character)
            ==> (spec_skill_target_ok(SkillTargetFilter::Enemy, caster, target, zone_pvp_state, pvp_enabled)
            <==> (target.hp > 0 && target.team_id != DEFAULT_NPC_TEAM_ID && caster.team_id
            != target.team_id)),
        caster.client_entity.entity_type is Character && target.client_entity.entity_type is Character
            && target.hp > 0 && (caster.entity == target.entity || caster.position.zone_id
            != target.position.zone_id) ==> !spec_skill_target_ok(
            SkillTargetFilter::Enemy,
            caster,
            target,
            zone_pvp_state,
            pvp_enabled,
        ),
{
}

} // verus!
