//! An agent's lifecycle as a state machine: what the run loop does with
//! each message, lifecycle control and turn event it receives. Waiting on
//! the channels, running the model and publishing states are the caller's
//! part; the caller feeds each input to `lifecycle_step` and carries out
//! the step it returns.
use vstd::prelude::*;
use crate::agent::{envelope, spec_json_string, AgentEvent, AgentState, ControlMessage, Message};

verus! {

/// Where the run loop stands.
#[derive(Debug, Clone, Copy, PartialEq, Eq, Structural)]
pub enum Phase {
    /// Waiting for a message or a control.
    Idle,
    /// Waiting for a control only.
    Hibernating,
    /// A turn is under way; `completed` once the model reported the turn
    /// complete.
    Running { completed: bool },
    /// The loop has ended.
    Stopped,
}

/// What the run loop received: a control (`None` once the control channel
/// is closed), a message (`None` once the inbox is closed) or an event of
/// the running turn (`None` once the turn's event stream ended).
#[derive(Debug, Clone)]
pub enum LifecycleInput {
    Control(Option<ControlMessage>),
    Inbox(Option<Message>),
    Turn(Option<AgentEvent>),
}

/// What the run loop does in answer. `start_turn` is the prompt of a turn
/// to begin, with a fresh send budget; `task_updates` and `states` are the
/// current-task and state writes in order; `forward` the events sent out,
/// in order.
#[derive(Debug, Clone)]
pub struct LifecycleStep {
    pub next: Phase,
    pub start_turn: Option<String>,
    pub task_updates: Vec<Option<String>>,
    pub states: Vec<AgentState>,
    pub forward: Vec<AgentEvent>,
}

/// The inputs the loop waits for in each phase.
pub open spec fn awaits(phase: Phase, input: LifecycleInput) -> bool {
    match phase {
        Phase::Idle => input is Control || input is Inbox,
        Phase::Hibernating => input is Control,
        Phase::Running { .. } => input is Control || input is Turn,
        Phase::Stopped => false,
    }
}

/// A control that ends the loop: an abort, or the control channel closed.
pub open spec fn ends(c: Option<ControlMessage>) -> bool {
    c == Some(ControlMessage::Abort) || c is None
}

/// `p` is the prompt for a message: a user prompt as it is, a peer message
/// in its envelope.
pub open spec fn prompt_of(m: Message, p: Seq<char>) -> bool {
    match m {
        Message::User(s) => p == s@,
        Message::AgentMessage(pm) => p == envelope(pm, spec_json_string(pm.content@)),
    }
}

pub open spec fn no_task_updates(s: LifecycleStep) -> bool {
    s.task_updates@.len() == 0
}

/// The step answers `input` in `phase` as the run loop does.
pub open spec fn steps_to(phase: Phase, input: LifecycleInput, s: LifecycleStep) -> bool {
    match phase {
        Phase::Idle => match input {
            LifecycleInput::Inbox(Some(m)) => {
                &&& s.next == Phase::Running { completed: false }
                &&& s.start_turn matches Some(p) && prompt_of(m, p@)
                &&& s.task_updates@.len() == 1
                &&& s.task_updates@[0] matches Some(t) && prompt_of(m, t@)
                &&& s.states@ == seq![AgentState::Running]
                &&& s.forward@.len() == 0
            },
            LifecycleInput::Inbox(None) => stops(s, 0),
            LifecycleInput::Control(c) => if ends(c) {
                stops(s, 0)
            } else if c == Some(ControlMessage::Hibernate) {
                quiet(s, Phase::Hibernating, seq![AgentState::Hibernating])
            } else {
                quiet(s, Phase::Idle, Seq::empty())
            },
            LifecycleInput::Turn(_) => false,
        },
        Phase::Hibernating => match input {
            LifecycleInput::Control(c) => if ends(c) {
                stops(s, 0)
            } else if c == Some(ControlMessage::Resume) {
                quiet(s, Phase::Idle, seq![AgentState::Idle])
            } else {
                quiet(s, Phase::Hibernating, Seq::empty())
            },
            _ => false,
        },
        Phase::Running { completed } => match input {
            LifecycleInput::Turn(Some(AgentEvent::TurnComplete)) => quiet(
                s,
                Phase::Running { completed: true },
                Seq::empty(),
            ),
            LifecycleInput::Turn(Some(e)) => {
                &&& s.next == Phase::Running { completed }
                &&& s.start_turn is None
                &&& no_task_updates(s)
                &&& s.states@.len() == 0
                &&& s.forward@ == seq![e]
            },
            LifecycleInput::Turn(None) => {
                &&& s.next == Phase::Idle
                &&& s.start_turn is None
                &&& s.task_updates@ == seq![None::<String>]
                &&& s.states@ == seq![AgentState::Idle]
                &&& if completed {
                    s.forward@.len() == 1 && s.forward@[0] is TurnComplete
                } else {
                    s.forward@.len() == 0
                }
            },
            LifecycleInput::Control(c) => if ends(c) {
                stops(s, 1)
            } else if c == Some(ControlMessage::Hibernate) {
                &&& s.next == Phase::Hibernating
                &&& s.start_turn is None
                &&& s.task_updates@ == seq![None::<String>]
                &&& s.states@ == seq![AgentState::Idle, AgentState::Hibernating]
                &&& s.forward@.len() == 0
            } else {
                quiet(s, Phase::Running { completed }, Seq::empty())
            },
            LifecycleInput::Inbox(_) => false,
        },
        Phase::Stopped => false,
    }
}

/// A step that only moves to `next` and publishes `states`.
pub open spec fn quiet(s: LifecycleStep, next: Phase, states: Seq<AgentState>) -> bool {
    &&& s.next == next
    &&& s.start_turn is None
    &&& no_task_updates(s)
    &&& s.states@ == states
    &&& s.forward@.len() == 0
}

/// A step that ends the loop: from a turn (`in_turn == 1`) the turn is
/// closed first (task cleared, state idle); then the task is cleared and
/// the state is stopped.
pub open spec fn stops(s: LifecycleStep, in_turn: int) -> bool {
    &&& s.next == Phase::Stopped
    &&& s.start_turn is None
    &&& s.forward@.len() == 0
    &&& if in_turn == 1 {
        &&& s.task_updates@ == seq![None::<String>, None::<String>]
        &&& s.states@ == seq![AgentState::Idle, AgentState::Stopped]
    } else {
        &&& s.task_updates@ == seq![None::<String>]
        &&& s.states@ == seq![AgentState::Stopped]
    }
}

fn quiet_step(next: Phase, states: Vec<AgentState>) -> (s: LifecycleStep)
    ensures
        quiet(s, next, states@),
{
    LifecycleStep { next, start_turn: None, task_updates: Vec::new(), states, forward: Vec::new() }
}

fn stop_step(in_turn: bool) -> (s: LifecycleStep)
    ensures
        stops(s, if in_turn { 1 } else { 0 }),
{
    let mut task_updates: Vec<Option<String>> = Vec::new();
    let mut states: Vec<AgentState> = Vec::new();
    if in_turn {
        task_updates.push(None);
        states.push(AgentState::Idle);
    }
    task_updates.push(None);
    states.push(AgentState::Stopped);
    assert(in_turn ==> task_updates@ =~= seq![None::<String>, None::<String>]);
    assert(!in_turn ==> task_updates@ =~= seq![None::<String>]);
    assert(in_turn ==> states@ =~= seq![AgentState::Idle, AgentState::Stopped]);
    assert(!in_turn ==> states@ =~= seq![AgentState::Stopped]);
    LifecycleStep { next: Phase::Stopped, start_turn: None, task_updates, states, forward: Vec::new() }
}

fn prompt_for(m: &Message) -> (p: String)
    ensures
        prompt_of(*m, p@),
{
    match m {
        Message::User(s) => String::from_str(s.as_str()),
        Message::AgentMessage(pm) => pm.render_for_model(),
    }
}

/// The run loop's answer to `input` in `phase`.
pub fn lifecycle_step(phase: Phase, input: LifecycleInput) -> (s: LifecycleStep)
    requires
        awaits(phase, input),
    ensures
        steps_to(phase, input, s),
{
    match phase {
        Phase::Idle => match input {
            LifecycleInput::Inbox(Some(m)) => {
                let prompt = prompt_for(&m);
                let task = prompt_for(&m);
                let mut task_updates: Vec<Option<String>> = Vec::new();
                task_updates.push(Some(task));
                let mut states: Vec<AgentState> = Vec::new();
                states.push(AgentState::Running);
                assert(states@ =~= seq![AgentState::Running]);
                LifecycleStep {
                    next: Phase::Running { completed: false },
                    start_turn: Some(prompt),
                    task_updates,
                    states,
                    forward: Vec::new(),
                }
            },
            LifecycleInput::Inbox(None) => stop_step(false),
            LifecycleInput::Control(c) => match c {
                None | Some(ControlMessage::Abort) => stop_step(false),
                Some(ControlMessage::Hibernate) => {
                    let mut states: Vec<AgentState> = Vec::new();
                    states.push(AgentState::Hibernating);
                    assert(states@ =~= seq![AgentState::Hibernating]);
                    quiet_step(Phase::Hibernating, states)
                },
                Some(ControlMessage::Resume) => {
                    let states: Vec<AgentState> = Vec::new();
                    assert(states@ =~= Seq::<AgentState>::empty());
                    quiet_step(Phase::Idle, states)
                },
            },
            LifecycleInput::Turn(_) => stop_step(false),
        },
        Phase::Hibernating => match input {
            LifecycleInput::Control(c) => match c {
                None | Some(ControlMessage::Abort) => stop_step(false),
                Some(ControlMessage::Resume) => {
                    let mut states: Vec<AgentState> = Vec::new();
                    states.push(AgentState::Idle);
                    assert(states@ =~= seq![AgentState::Idle]);
                    quiet_step(Phase::Idle, states)
                },
                Some(ControlMessage::Hibernate) => {
                    let states: Vec<AgentState> = Vec::new();
                    assert(states@ =~= Seq::<AgentState>::empty());
                    quiet_step(Phase::Hibernating, states)
                },
            },
            _ => stop_step(false),
        },
        Phase::Running { completed } => match input {
            LifecycleInput::Turn(Some(e)) => match e {
                AgentEvent::TurnComplete => {
                    let states: Vec<AgentState> = Vec::new();
                    assert(states@ =~= Seq::<AgentState>::empty());
                    quiet_step(Phase::Running { completed: true }, states)
                },
                other => {
                    let mut forward: Vec<AgentEvent> = Vec::new();
                    forward.push(other);
                    assert(forward@ =~= seq![other]);
                    LifecycleStep {
                        next: Phase::Running { completed },
                        start_turn: None,
                        task_updates: Vec::new(),
                        states: Vec::new(),
                        forward,
                    }
                },
            },
            LifecycleInput::Turn(None) => {
                let mut task_updates: Vec<Option<String>> = Vec::new();
                task_updates.push(None);
                let mut states: Vec<AgentState> = Vec::new();
                states.push(AgentState::Idle);
                let mut forward: Vec<AgentEvent> = Vec::new();
                if completed {
                    forward.push(AgentEvent::TurnComplete);
                }
                assert(task_updates@ =~= seq![None::<String>]);
                assert(states@ =~= seq![AgentState::Idle]);
                LifecycleStep { next: Phase::Idle, start_turn: None, task_updates, states, forward }
            },
            LifecycleInput::Control(c) => match c {
                None | Some(ControlMessage::Abort) => stop_step(true),
                Some(ControlMessage::Hibernate) => {
                    let mut task_updates: Vec<Option<String>> = Vec::new();
                    task_updates.push(None);
                    let mut states: Vec<AgentState> = Vec::new();
                    states.push(AgentState::Idle);
                    states.push(AgentState::Hibernating);
                    assert(task_updates@ =~= seq![None::<String>]);
                    assert(states@ =~= seq![AgentState::Idle, AgentState::Hibernating]);
                    LifecycleStep {
                        next: Phase::Hibernating,
                        start_turn: None,
                        task_updates,
                        states,
                        forward: Vec::new(),
                    }
                },
                Some(ControlMessage::Resume) => {
                    let states: Vec<AgentState> = Vec::new();
                    assert(states@ =~= Seq::<AgentState>::empty());
                    quiet_step(Phase::Running { completed }, states)
                },
            },
            LifecycleInput::Inbox(_) => stop_step(false),
        },
        Phase::Stopped => stop_step(false),
    }
}

/// A turn that ends, however it ends (its events run out, the agent is put
/// to sleep or aborted, or the controls close), leaves the agent with no
/// current task and not running.
pub proof fn lemma_turn_exit_clears_task(completed: bool, input: LifecycleInput, s: LifecycleStep)
    requires
        awaits(Phase::Running { completed }, input),
        steps_to(Phase::Running { completed }, input, s),
        !(s.next is Running),
    ensures
        s.task_updates@.len() > 0,
        s.task_updates@.last() is None,
        s.states@.len() > 0,
        s.states@.last() != AgentState::Running,
{
}

/// The end of a turn is reported only when its events ran out after the
/// model reported the turn complete: never on sleep or abort, and never in
/// the middle of a turn.
pub proof fn lemma_turn_complete_only_at_end(phase: Phase, input: LifecycleInput, s: LifecycleStep, i: int)
    requires
        awaits(phase, input),
        steps_to(phase, input, s),
        0 <= i < s.forward@.len(),
        s.forward@[i] is TurnComplete,
    ensures
        phase == (Phase::Running { completed: true }),
        input matches LifecycleInput::Turn(None),
{
}

} // verus!
