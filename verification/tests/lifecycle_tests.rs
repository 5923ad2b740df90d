use workflow::agent::{AgentEvent, AgentState, ControlMessage, Message};
use workflow::lifecycle::{lifecycle_step, LifecycleInput, Phase};

#[test]
fn a_turn_runs_and_reports_completion() {
    let s = lifecycle_step(Phase::Idle, LifecycleInput::Inbox(Some(Message::User("hi".to_string()))));
    assert_eq!(s.next, Phase::Running { completed: false });
    assert_eq!(s.start_turn.as_deref(), Some("hi"));
    assert_eq!(s.task_updates, vec![Some("hi".to_string())]);
    assert_eq!(s.states, vec![AgentState::Running]);

    let s = lifecycle_step(s.next, LifecycleInput::Turn(Some(AgentEvent::Text("hello".to_string()))));
    assert_eq!(s.next, Phase::Running { completed: false });
    assert!(matches!(s.forward.as_slice(), [AgentEvent::Text(t)] if t == "hello"));

    let s = lifecycle_step(s.next, LifecycleInput::Turn(Some(AgentEvent::TurnComplete)));
    assert_eq!(s.next, Phase::Running { completed: true });
    assert!(s.forward.is_empty());

    let s = lifecycle_step(s.next, LifecycleInput::Turn(None));
    assert_eq!(s.next, Phase::Idle);
    assert_eq!(s.task_updates, vec![None]);
    assert_eq!(s.states, vec![AgentState::Idle]);
    assert!(matches!(s.forward.as_slice(), [AgentEvent::TurnComplete]));
}

#[test]
fn a_turn_without_completion_reports_nothing() {
    let s = lifecycle_step(Phase::Running { completed: false }, LifecycleInput::Turn(None));
    assert_eq!(s.next, Phase::Idle);
    assert!(s.forward.is_empty());
}

#[test]
fn hibernate_cancels_the_turn_and_resume_wakes() {
    let s = lifecycle_step(Phase::Running { completed: true }, LifecycleInput::Control(Some(ControlMessage::Hibernate)));
    assert_eq!(s.next, Phase::Hibernating);
    assert_eq!(s.states, vec![AgentState::Idle, AgentState::Hibernating]);
    assert_eq!(s.task_updates, vec![None]);
    assert!(s.forward.is_empty());

    let s = lifecycle_step(Phase::Hibernating, LifecycleInput::Control(Some(ControlMessage::Hibernate)));
    assert_eq!(s.next, Phase::Hibernating);
    assert!(s.states.is_empty());

    let s = lifecycle_step(Phase::Hibernating, LifecycleInput::Control(Some(ControlMessage::Resume)));
    assert_eq!(s.next, Phase::Idle);
    assert_eq!(s.states, vec![AgentState::Idle]);

    let s = lifecycle_step(Phase::Idle, LifecycleInput::Control(Some(ControlMessage::Hibernate)));
    assert_eq!(s.next, Phase::Hibernating);
    assert_eq!(s.states, vec![AgentState::Hibernating]);
}

#[test]
fn abort_or_closed_channels_stop_the_loop() {
    let s = lifecycle_step(Phase::Running { completed: true }, LifecycleInput::Control(Some(ControlMessage::Abort)));
    assert_eq!(s.next, Phase::Stopped);
    assert_eq!(s.states, vec![AgentState::Idle, AgentState::Stopped]);
    assert_eq!(s.task_updates, vec![None, None]);
    assert!(s.forward.is_empty());

    let s = lifecycle_step(Phase::Idle, LifecycleInput::Inbox(None));
    assert_eq!(s.next, Phase::Stopped);
    assert_eq!(s.states, vec![AgentState::Stopped]);

    let s = lifecycle_step(Phase::Hibernating, LifecycleInput::Control(None));
    assert_eq!(s.next, Phase::Stopped);

    let s = lifecycle_step(Phase::Idle, LifecycleInput::Control(Some(ControlMessage::Resume)));
    assert_eq!(s.next, Phase::Idle);
    assert!(s.states.is_empty() && s.task_updates.is_empty());
}
