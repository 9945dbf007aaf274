//! One tick of an entity's command scheduling: what dying, disabling status
//! effects, motion time and a queued command do to the current command.
//! Carrying out the queued command itself (moving, attacking, casting,
//! picking up) is left to the caller, told so by `PerformNext`.
use vstd::prelude::*;

verus! {

/// The current command, as scheduling sees it.
#[derive(Debug, Clone, Copy, PartialEq, Eq, Structural)]
pub enum CurrentKind {
    /// Dying or dead: nothing else is done.
    Die,
    /// Sitting down.
    Sitting,
    /// Sat down; only standing up ends it.
    Sit,
    /// Standing up.
    Standing,
    /// An emote, which any queued command interrupts.
    Emote,
    /// Anything else; `manual_complete` when only another command ends it.
    Other { manual_complete: bool },
}

/// An entity's commands, as scheduling sees them.
#[derive(Debug, Clone, Copy, PartialEq, Eq, Structural)]
pub struct CommandState {
    pub current: CurrentKind,
    /// Ticks spent in the current command.
    pub duration: u64,
    /// Ticks the current command's motion takes (for an attack, already
    /// scaled by the attack speed), or none.
    pub required_duration: Option<u64>,
    /// A command is queued.
    pub has_next: bool,
    /// Clients were told of the queued command.
    pub next_message_sent: bool,
}

/// What happened around the entity this tick.
#[derive(Debug, Clone, Copy, PartialEq, Eq, Structural)]
pub struct CommandInputs {
    /// Ticks since the last tick.
    pub delta: u64,
    /// A status effect stops every action.
    pub action_disabled: bool,
    /// The current command is one an action-disabling effect stops.
    pub current_blocked_by_action_disable: bool,
    /// A skill-disabling effect stopped a skill cast this tick
    /// (`clear_skill_use_disabled_target` said so).
    pub skill_use_cleared: bool,
    /// Ticks the standing-up motion takes.
    pub standing_duration: u64,
}

/// What the caller does for the step.
#[derive(Debug, Clone, Copy, PartialEq, Eq, Structural)]
pub enum CommandAction {
    /// Stop the current command (`command_stop`, telling clients).
    StopCurrent,
    /// Drop the queued command.
    ClearNext,
    /// Tell clients of the queued command.
    SendNextMessage,
    /// The current command ended with nothing queued: it becomes standing still.
    ClearCurrent,
    /// Stand up before the queued command (tell clients `SitToggle`).
    StandUp,
    /// Carry out the queued command.
    PerformNext,
}

/// The state of standing still, just begun.
pub open spec fn stopped(s: CommandState) -> CommandState {
    CommandState { current: CurrentKind::Other { manual_complete: false }, duration: 0, required_duration: None, ..s }
}

/// Only another command ends the current one.
pub open spec fn manual_complete(k: CurrentKind) -> bool {
    match k {
        CurrentKind::Sit => true,
        CurrentKind::Other { manual_complete } => manual_complete,
        _ => false,
    }
}

/// The step after the queued command's message and the tick's time.
pub open spec fn after_motion(s: CommandState, i: CommandInputs) -> (CommandState, Seq<CommandAction>) {
    let required = if s.current is Emote && s.has_next {
        None
    } else {
        s.required_duration
    };
    let completed = match required {
        None => true,
        Some(r) => s.duration >= r,
    };
    if !completed || s.current is Die {
        (s, Seq::empty())
    } else {
        let s = if s.current is Sitting {
            CommandState { current: CurrentKind::Sit, duration: 0, required_duration: None, ..s }
        } else {
            s
        };
        if !s.has_next {
            if !manual_complete(s.current) {
                (stopped(s), seq![CommandAction::ClearCurrent])
            } else {
                (s, Seq::empty())
            }
        } else if s.current is Sit {
            (
                CommandState {
                    current: CurrentKind::Standing,
                    duration: 0,
                    required_duration: Some(i.standing_duration),
                    ..s
                },
                seq![CommandAction::StandUp],
            )
        } else {
            (s, seq![CommandAction::PerformNext])
        }
    }
}

/// One tick of scheduling, in order: the dead drop what is queued; an
/// action-disabling effect stops a current command it blocks, drops what is
/// queued and ends the step; a skill-disabling stop ends the step; clients
/// are told of a newly queued command; the tick's time is added; then, once
/// the current motion is complete (an emote is complete at once when a
/// command is queued), sitting down becomes sitting, and either the current
/// command ends (when nothing is queued and it does not wait to be ended),
/// a sitter stands up first, or the queued command is carried out.
pub open spec fn spec_command_step(s: CommandState, i: CommandInputs) -> (CommandState, Seq<CommandAction>) {
    let dead = s.current is Die;
    let s = if dead {
        CommandState { has_next: false, ..s }
    } else {
        s
    };
    if !dead && i.action_disabled {
        let (s1, a1) = if i.current_blocked_by_action_disable {
            (stopped(s), seq![CommandAction::StopCurrent])
        } else {
            (s, Seq::empty())
        };
        if s1.has_next {
            (CommandState { has_next: false, next_message_sent: false, ..s1 }, a1.push(CommandAction::ClearNext))
        } else {
            (s1, a1)
        }
    } else if !dead && i.skill_use_cleared {
        (s, Seq::empty())
    } else {
        let (s2, a2) = if !s.next_message_sent && s.has_next {
            (CommandState { next_message_sent: true, ..s }, seq![CommandAction::SendNextMessage])
        } else {
            (s, Seq::empty())
        };
        let s3 = CommandState { duration: (s2.duration + i.delta) as u64, ..s2 };
        let (s4, a4) = after_motion(s3, i);
        (s4, a2 + a4)
    }
}

/// Runs one tick of scheduling.
pub fn command_step(state: &CommandState, input: &CommandInputs) -> (r: (CommandState, Vec<CommandAction>))
    requires
        state.duration + input.delta <= u64::MAX,
    ensures
        (r.0, r.1@) == spec_command_step(*state, *input),
{
    let mut s = *state;
    let mut actions: Vec<CommandAction> = Vec::new();
    let dead = match s.current {
        CurrentKind::Die => true,
        _ => false,
    };
    if dead {
        s.has_next = false;
    }
    if !dead && input.action_disabled {
        if input.current_blocked_by_action_disable {
            s.current = CurrentKind::Other { manual_complete: false };
            s.duration = 0;
            s.required_duration = None;
            actions.push(CommandAction::StopCurrent);
        }
        if s.has_next {
            s.has_next = false;
            s.next_message_sent = false;
            actions.push(CommandAction::ClearNext);
        }
        proof {
            assert(actions@ =~= spec_command_step(*state, *input).1);
        }
        return (s, actions);
    }
    if !dead && input.skill_use_cleared {
        assert(actions@ =~= Seq::<CommandAction>::empty());
        return (s, actions);
    }
    if !s.next_message_sent && s.has_next {
        s.next_message_sent = true;
        actions.push(CommandAction::SendNextMessage);
    }
    let ghost a2 = actions@;
    s.duration = s.duration + input.delta;
    let emote = match s.current {
        CurrentKind::Emote => true,
        _ => false,
    };
    let required = if emote && s.has_next {
        None
    } else {
        s.required_duration
    };
    let completed = match required {
        None => true,
        Some(r) => s.duration >= r,
    };
    if !completed || dead {
        assert(actions@ =~= a2 + Seq::<CommandAction>::empty());
        return (s, actions);
    }
    if let CurrentKind::Sitting = s.current {
        s.current = CurrentKind::Sit;
        s.duration = 0;
        s.required_duration = None;
    }
    if !s.has_next {
        let manual = match s.current {
            CurrentKind::Sit => true,
            CurrentKind::Other { manual_complete } => manual_complete,
            _ => false,
        };
        if !manual {
            s.current = CurrentKind::Other { manual_complete: false };
            s.duration = 0;
            s.required_duration = None;
            actions.push(CommandAction::ClearCurrent);
            assert(actions@ =~= a2 + seq![CommandAction::ClearCurrent]);
        } else {
            assert(actions@ =~= a2 + Seq::<CommandAction>::empty());
        }
        return (s, actions);
    }
    if let CurrentKind::Sit = s.current {
        s.current = CurrentKind::Standing;
        s.duration = 0;
        s.required_duration = Some(input.standing_duration);
        actions.push(CommandAction::StandUp);
        assert(actions@ =~= a2 + seq![CommandAction::StandUp]);
        return (s, actions);
    }
    actions.push(CommandAction::PerformNext);
    assert(actions@ =~= a2 + seq![CommandAction::PerformNext]);
    (s, actions)
}

/// The dead never carry out a queued command, and an entity whose actions
/// are disabled neither carries one out nor keeps one queued.
pub proof fn lemma_dead_and_disabled_do_nothing(s: CommandState, i: CommandInputs)
    ensures
        s.current is Die ==> !spec_command_step(s, i).1.contains(CommandAction::PerformNext)
            && !spec_command_step(s, i).0.has_next,
        !(s.current is Die) && i.action_disabled ==> !spec_command_step(s, i).1.contains(
            CommandAction::PerformNext,
        ) && !spec_command_step(s, i).0.has_next,
{
    let r = spec_command_step(s, i);
    if s.current is Die {
        assert(r.1.len() == 0);
    } else if i.action_disabled {
        assert forall|k: int| 0 <= k < r.1.len() implies r.1[k] != CommandAction::PerformNext by {}
    }
}

} // verus!
