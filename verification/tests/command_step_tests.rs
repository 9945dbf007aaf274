use rose_data_core::command_step::{
    command_step, CommandAction, CommandInputs, CommandState, CurrentKind,
};

fn state(current: CurrentKind, duration: u64, required: Option<u64>, has_next: bool) -> CommandState {
    CommandState { current, duration, required_duration: required, has_next, next_message_sent: false }
}

fn quiet() -> CommandInputs {
    CommandInputs {
        delta: 10,
        action_disabled: false,
        current_blocked_by_action_disable: false,
        skill_use_cleared: false,
        standing_duration: 40,
    }
}

const STILL: CurrentKind = CurrentKind::Other { manual_complete: false };

#[test]
fn a_queued_command_waits_for_the_motion_then_runs() {
    let (s, a) = command_step(&state(STILL, 0, Some(30), true), &quiet());
    assert_eq!(a, vec![CommandAction::SendNextMessage]);
    assert_eq!(s.duration, 10);
    assert!(s.next_message_sent);
    let (s, a) = command_step(&CommandState { duration: 20, ..s }, &quiet());
    assert_eq!(a, vec![CommandAction::PerformNext]);
    assert_eq!(s.duration, 30);
}

#[test]
fn the_dead_drop_what_is_queued() {
    let (s, a) = command_step(&state(CurrentKind::Die, 0, None, true), &quiet());
    assert!(a.is_empty());
    assert!(!s.has_next);
}

#[test]
fn disabled_actions_stop_and_clear() {
    let mut i = quiet();
    i.action_disabled = true;
    i.current_blocked_by_action_disable = true;
    let (s, a) = command_step(&state(CurrentKind::Emote, 5, Some(50), true), &i);
    assert_eq!(a, vec![CommandAction::StopCurrent, CommandAction::ClearNext]);
    assert_eq!(s.current, STILL);
    assert!(!s.has_next);
    i.current_blocked_by_action_disable = false;
    let (s, a) = command_step(&state(CurrentKind::Die, 5, None, false), &i);
    assert!(a.is_empty());
    assert_eq!(s.duration, 15);
}

#[test]
fn sitting_down_then_standing_up_for_the_next_command() {
    let (s, a) = command_step(&state(CurrentKind::Sitting, 30, Some(35), false), &quiet());
    assert!(a.is_empty());
    assert_eq!(s.current, CurrentKind::Sit);
    let (s, a) = command_step(&CommandState { has_next: true, next_message_sent: true, ..s }, &quiet());
    assert_eq!(a, vec![CommandAction::StandUp]);
    assert_eq!((s.current, s.required_duration), (CurrentKind::Standing, Some(40)));
}

#[test]
fn finished_commands_clear_unless_they_wait() {
    let (s, a) = command_step(&state(CurrentKind::Emote, 0, Some(5), false), &quiet());
    assert_eq!(a, vec![CommandAction::ClearCurrent]);
    assert_eq!(s.current, STILL);
    let store = CurrentKind::Other { manual_complete: true };
    let (s, a) = command_step(&state(store, 0, None, false), &quiet());
    assert!(a.is_empty());
    assert_eq!(s.current, store);
    // a queued command interrupts an emote at once
    let (_, a) = command_step(&state(CurrentKind::Emote, 0, Some(500), true), &quiet());
    assert_eq!(a, vec![CommandAction::SendNextMessage, CommandAction::PerformNext]);
    // a skill-disable stop ends the step
    let mut i = quiet();
    i.skill_use_cleared = true;
    let (s, a) = command_step(&state(STILL, 0, None, true), &i);
    assert!(a.is_empty());
    assert_eq!(s.duration, 0);
}
