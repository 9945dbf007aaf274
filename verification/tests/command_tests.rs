use rose_data_core::command::{
    check_skill_target_filter, clear_skill_use_disabled_target, command_is_blocked_by_action_disable,
    command_is_blocked_by_skill_disable, get_skill_followup_command, is_idle_owner_command,
    is_summon_points_limited, is_valid_attack_target, is_valid_move_target, stop_action_disabled_target,
    stop_skill_use_disabled_target, AttackTarget, Command, CommandData, MoveMode, NextCommand,
    SkillActionMode, SkillId, SkillParticipant, SkillTargetFilter,
};
use rose_data_core::entity::{ClientEntity, ClientEntityId, ClientEntityType, Entity, Position};
use rose_data_core::ifo::Vec3Bits;
use rose_data_core::messages::{
    send_skill_target_status_effects_update, summon_points_update_message, ActiveStatusEffect,
    ServerMessage, ServerMessages, StatusEffectId, StatusEffectType, StatusEffects,
};

fn vec3(x: f32, y: f32, z: f32) -> Vec3Bits {
    Vec3Bits { x: x.to_bits(), y: y.to_bits(), z: z.to_bits() }
}

fn position(x: f32, y: f32, z: f32, zone_id: u16) -> Position {
    Position { x: x.to_bits(), y: y.to_bits(), z: z.to_bits(), zone_id }
}

fn cast_skill(id: u16) -> CommandData {
    CommandData::CastSkill {
        skill_id: SkillId::new(id).unwrap(),
        skill_target: None,
        cast_motion_id: None,
        action_motion_id: None,
        restore_command: None,
    }
}

#[test]
fn action_disabled_commands_allow_only_stop_and_die() {
    assert!(!command_is_blocked_by_action_disable(&CommandData::Stop { send_message: false }));
    assert!(!command_is_blocked_by_action_disable(&CommandData::Die { killer: None, damage: None }));
    assert!(command_is_blocked_by_action_disable(&CommandData::Move {
        destination: vec3(0.0, 0.0, 0.0),
        target: None,
        move_mode: None,
    }));
    assert!(command_is_blocked_by_action_disable(&CommandData::Attack { target: Entity::from_raw(1) }));
    assert!(command_is_blocked_by_action_disable(&CommandData::Emote { motion_id: 1, is_stop: false }));
    assert!(command_is_blocked_by_action_disable(&CommandData::Sitting));
    assert!(command_is_blocked_by_action_disable(&CommandData::Standing));
    assert!(command_is_blocked_by_action_disable(&CommandData::Sit));
    assert!(command_is_blocked_by_action_disable(&CommandData::PersonalStore));
    assert!(command_is_blocked_by_action_disable(&CommandData::PickupItemDrop { target: Entity::from_raw(2) }));
    assert!(command_is_blocked_by_action_disable(&cast_skill(1)));
}

#[test]
fn skill_disabled_only_blocks_cast_skill_commands() {
    assert!(!command_is_blocked_by_skill_disable(&CommandData::Stop { send_message: false }));
    assert!(!command_is_blocked_by_skill_disable(&CommandData::Move {
        destination: vec3(0.0, 0.0, 0.0),
        target: None,
        move_mode: None,
    }));
    assert!(!command_is_blocked_by_skill_disable(&CommandData::Attack { target: Entity::from_raw(1) }));
    assert!(command_is_blocked_by_skill_disable(&cast_skill(1)));
}

#[test]
fn restore_skill_followup_prefers_stored_attack_command() {
    let target_entity = Entity::from_raw(7);
    let current_command = CommandData::Move {
        destination: vec3(10.0, 0.0, 0.0),
        target: Some(target_entity),
        move_mode: Some(MoveMode::Run),
    };
    let stored_restore = CommandData::Attack { target: target_entity };

    let next_command = get_skill_followup_command(
        SkillActionMode::Restore,
        Some(target_entity),
        &current_command,
        Some(&stored_restore),
    );

    assert!(matches!(next_command.command, Some(CommandData::Attack { target }) if target == target_entity));
    assert!(next_command.has_sent_server_message);
}

#[test]
fn restore_skill_followup_uses_current_command_when_no_stored_restore_exists() {
    let target_entity = Entity::from_raw(8);
    let current_command = CommandData::Move {
        destination: vec3(20.0, 0.0, 0.0),
        target: Some(target_entity),
        move_mode: Some(MoveMode::Run),
    };

    let next_command =
        get_skill_followup_command(SkillActionMode::Restore, Some(target_entity), &current_command, None);

    assert!(matches!(
        next_command.command,
        Some(CommandData::Move { target: Some(target), .. }) if target == target_entity
    ));
    assert!(next_command.has_sent_server_message);
}

#[test]
fn attack_and_stop_skill_followups_keep_existing_behavior() {
    let target_entity = Entity::from_raw(9);
    let current_command = CommandData::Stop { send_message: false };

    let attack_followup =
        get_skill_followup_command(SkillActionMode::Attack, Some(target_entity), &current_command, None);
    let stop_followup =
        get_skill_followup_command(SkillActionMode::Stop, Some(target_entity), &current_command, None);

    assert!(matches!(attack_followup.command, Some(CommandData::Attack { target }) if target == target_entity));
    assert!(attack_followup.has_sent_server_message);
    assert!(stop_followup.command.is_none());
}

#[test]
fn skill_disabled_clears_only_cast_commands() {
    let mut command = Command::with_move(vec3(10.0, 20.0, 0.0), None, Some(MoveMode::Run));
    let mut next_command = NextCommand::with_cast_skill_target_self(SkillId::new(1).unwrap());
    let client_entity = ClientEntity::new(ClientEntityType::Character, ClientEntityId(1), 1);
    let position = position(0.0, 0.0, 0.0, 1);
    let mut server_messages = ServerMessages::new();

    let stopped_current = clear_skill_use_disabled_target(
        &mut command,
        &mut next_command,
        &client_entity,
        &position,
        &mut server_messages,
    );

    assert!(!stopped_current);
    assert!(matches!(command.command, CommandData::Move { .. }));
    assert!(next_command.command.is_none());
    assert!(server_messages.pending_entity_messages.is_empty());
}

#[test]
fn skill_disabled_stops_active_cast_and_notifies_client() {
    let mut command = Command::with_cast_skill(SkillId::new(1).unwrap(), None);
    let mut next_command = NextCommand::new();
    let client_entity = ClientEntity::new(ClientEntityType::Character, ClientEntityId(2), 1);
    let position = position(5.0, 6.0, 7.0, 1);
    let mut server_messages = ServerMessages::new();

    let stopped_current = clear_skill_use_disabled_target(
        &mut command,
        &mut next_command,
        &client_entity,
        &position,
        &mut server_messages,
    );

    assert!(stopped_current);
    assert!(command.is_stop());
    assert_eq!(server_messages.pending_entity_messages.len(), 1);
}

#[test]
fn stop_action_disabled_target_clears_command_and_queue_and_notifies_client() {
    let mut server_messages = ServerMessages::new();
    let client_entity = ClientEntity::new(ClientEntityType::Monster, ClientEntityId(99), 1);
    let position = position(10.0, 20.0, 30.0, 1);
    let mut command = Command::with_move(vec3(100.0, 200.0, 30.0), None, Some(MoveMode::Run));
    let mut next_command = NextCommand::with_attack(Entity::from_raw(7));

    stop_action_disabled_target(&mut server_messages, &client_entity, &position, &mut command, &mut next_command);

    assert!(command.is_stop());
    assert!(next_command.command.is_none());
    assert_eq!(server_messages.pending_entity_messages.len(), 1);

    match &server_messages.pending_entity_messages[0].message {
        ServerMessage::StopMoveEntity { entity_id, x, y, z } => {
            assert_eq!(*entity_id, client_entity.id);
            assert_eq!(f32::from_bits(*x), 10.0);
            assert_eq!(f32::from_bits(*y), 20.0);
            assert_eq!(f32::from_bits(*z) as u16, 30);
        }
        other => panic!("expected StopMoveEntity, got {:?}", other),
    }
}

#[test]
fn stop_action_disabled_target_is_noop_for_already_stopped_targets() {
    let mut server_messages = ServerMessages::new();
    let client_entity = ClientEntity::new(ClientEntityType::Monster, ClientEntityId(100), 1);
    let position = position(1.0, 2.0, 3.0, 1);
    let mut command = Command::with_stop();
    let mut next_command = NextCommand::new();

    stop_action_disabled_target(&mut server_messages, &client_entity, &position, &mut command, &mut next_command);

    assert!(command.is_stop());
    assert!(next_command.command.is_none());
    assert!(server_messages.pending_entity_messages.is_empty());
}

#[test]
fn stop_skill_use_disabled_target_clears_only_skill_commands() {
    let mut server_messages = ServerMessages::new();
    let client_entity = ClientEntity::new(ClientEntityType::Monster, ClientEntityId(102), 1);
    let position = position(1.0, 2.0, 3.0, 1);
    let mut command = Command::with_move(vec3(100.0, 200.0, 30.0), None, Some(MoveMode::Run));
    let mut next_command = NextCommand::with_attack(Entity::from_raw(7));

    stop_skill_use_disabled_target(&mut server_messages, &client_entity, &position, &mut command, &mut next_command);

    assert!(matches!(command.command, CommandData::Move { .. }));
    assert!(matches!(next_command.command, Some(CommandData::Attack { .. })));
    assert!(server_messages.pending_entity_messages.is_empty());
}

#[test]
fn stop_skill_use_disabled_target_stops_active_cast_and_clears_next_cast() {
    let mut server_messages = ServerMessages::new();
    let client_entity = ClientEntity::new(ClientEntityType::Monster, ClientEntityId(103), 1);
    let position = position(4.0, 5.0, 6.0, 1);
    let mut command = Command::with_cast_skill(SkillId::new(1).unwrap(), None);
    let mut next_command = NextCommand::with_cast_skill_target_self(SkillId::new(2).unwrap());

    stop_skill_use_disabled_target(&mut server_messages, &client_entity, &position, &mut command, &mut next_command);

    assert!(command.is_stop());
    assert!(next_command.command.is_none());
    assert_eq!(server_messages.pending_entity_messages.len(), 1);
}

#[test]
fn send_skill_target_status_effects_update_queues_authoritative_status_state() {
    let mut server_messages = ServerMessages::new();
    let client_entity = ClientEntity::new(ClientEntityType::Character, ClientEntityId(101), 1);
    let mut status_effects = StatusEffects::new();
    status_effects.active.set(
        StatusEffectType::DecreaseMoveSpeed,
        Some(ActiveStatusEffect { id: StatusEffectId::new(7).unwrap(), value: 42 }),
    );

    send_skill_target_status_effects_update(&mut server_messages, &client_entity, &status_effects);

    assert_eq!(server_messages.pending_entity_messages.len(), 1);
    match &server_messages.pending_entity_messages[0].message {
        ServerMessage::UpdateStatusEffects { entity_id, status_effects, updated_values } => {
            assert_eq!(*entity_id, client_entity.id);
            let slow_effect = status_effects
                .get(StatusEffectType::DecreaseMoveSpeed)
                .expect("slow should be present");
            assert_eq!(slow_effect.id, StatusEffectId::new(7).unwrap());
            assert_eq!(slow_effect.value, 42);
            assert!(updated_values.is_empty());
        }
        other => panic!("expected UpdateStatusEffects, got {:?}", other),
    }
}

#[test]
fn idle_owner_commands_are_resting_ones() {
    assert!(is_idle_owner_command(&Command::with_stop()));
    assert!(is_idle_owner_command(&Command { command: CommandData::Sitting }));
    assert!(is_idle_owner_command(&Command { command: CommandData::PersonalStore }));
    assert!(!is_idle_owner_command(&Command::with_move(vec3(1.0, 1.0, 0.0), None, None)));
    assert!(!is_idle_owner_command(&Command { command: CommandData::Attack { target: Entity::from_raw(3) } }));
}

#[test]
fn summon_points_are_capped_and_limited() {
    match summon_points_update_message(70000, 12) {
        ServerMessage::UpdateSummonPoints { used_points, max_points } => {
            assert_eq!(used_points, u16::MAX);
            assert_eq!(max_points, 12);
        }
        other => panic!("unexpected {:?}", other),
    }
    assert!(!is_summon_points_limited(false, Some(10), Some(95), 100));
    assert!(!is_summon_points_limited(true, None, Some(95), 100));
    assert!(!is_summon_points_limited(true, Some(0), Some(95), 100));
    assert!(is_summon_points_limited(true, Some(10), Some(95), 100));
    assert!(!is_summon_points_limited(true, Some(10), None, 100));
    assert!(is_summon_points_limited(true, Some(10), Some(u32::MAX), 100));
}

fn participant(entity: u32, kind: ClientEntityType, team_id: u32, hp: i32, party: Option<u32>) -> SkillParticipant {
    SkillParticipant {
        entity: Entity::from_raw(entity),
        client_entity: ClientEntity::new(kind, ClientEntityId(entity as usize), 1),
        position: position(0.0, 0.0, 0.0, 1),
        team_id,
        hp,
        party: party.map(Entity::from_raw),
        clan: None,
    }
}

#[test]
fn skill_target_filters_follow_the_rules() {
    let caster = participant(1, ClientEntityType::Character, 2, 100, Some(50));
    let ally = participant(2, ClientEntityType::Character, 2, 100, Some(50));
    let stranger = participant(3, ClientEntityType::Character, 2, 100, None);
    let monster = participant(4, ClientEntityType::Monster, 100, 100, None);
    let dead_ally = participant(5, ClientEntityType::Character, 2, 0, None);

    assert!(check_skill_target_filter(SkillTargetFilter::OnlySelf, &caster, &caster, None, false));
    assert!(!check_skill_target_filter(SkillTargetFilter::OnlySelf, &caster, &ally, None, false));
    assert!(check_skill_target_filter(SkillTargetFilter::Group, &caster, &ally, None, false));
    assert!(!check_skill_target_filter(SkillTargetFilter::Group, &caster, &stranger, None, false));
    assert!(check_skill_target_filter(SkillTargetFilter::Monster, &caster, &monster, None, false));
    assert!(check_skill_target_filter(SkillTargetFilter::EnemyMonster, &caster, &monster, None, false));
    assert!(check_skill_target_filter(SkillTargetFilter::DeadAlliedCharacter, &caster, &dead_ally, None, false));
    assert!(!check_skill_target_filter(SkillTargetFilter::Character, &caster, &dead_ally, None, false));
    assert!(!check_skill_target_filter(SkillTargetFilter::Enemy, &caster, &stranger, Some(0), true));
    assert!(check_skill_target_filter(SkillTargetFilter::Enemy, &caster, &stranger, Some(1), true));
    assert!(!check_skill_target_filter(SkillTargetFilter::Enemy, &caster, &stranger, None, true));
}

#[test]
fn attack_targets_must_be_living_enemies_in_the_zone() {
    let me = ClientEntity::new(ClientEntityType::Character, ClientEntityId(1), 1);
    let here = position(0.0, 0.0, 0.0, 1);
    let monster = AttackTarget {
        client_entity: ClientEntity::new(ClientEntityType::Monster, ClientEntityId(2), 1),
        position: here,
        hp: 10,
        team_id: 100,
    };
    assert!(is_valid_attack_target(&monster, &me, &here, 2, None, false));
    let dead = AttackTarget { hp: 0, ..monster };
    assert!(!is_valid_attack_target(&dead, &me, &here, 2, None, false));
    let npc = AttackTarget { team_id: 1, ..monster };
    assert!(!is_valid_attack_target(&npc, &me, &here, 2, None, false));
    let elsewhere = AttackTarget { position: position(0.0, 0.0, 0.0, 9), ..monster };
    assert!(!is_valid_attack_target(&elsewhere, &me, &here, 2, None, false));
    assert!(is_valid_move_target(&here, &here));
    assert!(!is_valid_move_target(&position(0.0, 0.0, 0.0, 9), &here));
}
