use workflow::agent_tree::AgentStatus;
use workflow::event_loop::{decomposition_edges, loop_dispatch, tick, LoopAction, LoopTicks, TickPlan};
use workflow::types::{RuntimeEvent, SubtaskDef};

fn sub(id: &str, deps: &[&str]) -> SubtaskDef {
    SubtaskDef {
        id: id.to_string(),
        role: "coder".to_string(),
        goal: format!("goal {}", id),
        depend_on: deps.iter().map(|d| d.to_string()).collect(),
        auto_confirm: false,
    }
}

#[test]
fn eviction_every_hundred_twenty_events() {
    let mut t = LoopTicks { eviction_tick: 0, checkpoint_tick: 0 };
    let mut evictions = 0;
    for _ in 0..240 {
        if tick(&mut t, 0).evict {
            evictions += 1;
        }
    }
    assert_eq!(evictions, 2);
    assert_eq!(t.eviction_tick, 240);
    // the checkpoint counter moves on every tenth event
    assert_eq!(t.checkpoint_tick, 24);
}

#[test]
fn checkpoint_saved_on_interval_multiples() {
    let mut t = LoopTicks { eviction_tick: 9, checkpoint_tick: 0 };
    assert_eq!(tick(&mut t, 3), TickPlan { evict: false, checkpoint: true });
    assert_eq!(t.checkpoint_tick, 1);
    let mut t = LoopTicks { eviction_tick: 9, checkpoint_tick: 1 };
    assert_eq!(tick(&mut t, 3), TickPlan { evict: false, checkpoint: false });
    assert_eq!(t.checkpoint_tick, 2);
    // an interval of zero never saves
    let mut t = LoopTicks { eviction_tick: 9, checkpoint_tick: 0 };
    assert!(!tick(&mut t, 0).checkpoint);
    // between the tenth events nothing is checked
    let mut t = LoopTicks { eviction_tick: 3, checkpoint_tick: 0 };
    assert_eq!(tick(&mut t, 1), TickPlan { evict: false, checkpoint: false });
    assert_eq!(t.checkpoint_tick, 0);
    let mut t = LoopTicks { eviction_tick: 119, checkpoint_tick: 5 };
    assert_eq!(tick(&mut t, 5), TickPlan { evict: true, checkpoint: true });
}

fn inbox(agent: u8) -> RuntimeEvent {
    RuntimeEvent::InboxMessage {
        agent_id: [agent; 16],
        from_name: "peer".to_string(),
        preview: "hi".to_string(),
        unread_count: 1,
    }
}

#[test]
fn inbox_message_wakes_finished_agents() {
    for status in [AgentStatus::Completed, AgentStatus::Failed, AgentStatus::Idle] {
        match loop_dispatch(inbox(2), Some(status)) {
            LoopAction::Reactivate { agent_id, forward } => {
                assert_eq!(agent_id, [2u8; 16]);
                assert!(matches!(forward, RuntimeEvent::InboxMessage { unread_count: 1, .. }));
            }
            other => panic!("unexpected {:?}", other),
        }
    }
    for status in [Some(AgentStatus::Planning), Some(AgentStatus::Aggregating), None] {
        assert!(matches!(loop_dispatch(inbox(3), status), LoopAction::Touch { agent_id, .. } if agent_id == [3u8; 16]));
    }
}

#[test]
fn other_events_are_routed() {
    let a = loop_dispatch(RuntimeEvent::ActivateAgent { agent_id: [1u8; 16], parent_id: Some([0u8; 16]) }, None);
    assert!(matches!(a, LoopAction::Activate { parent_id: Some(p), .. } if p == [0u8; 16]));
    let a = loop_dispatch(RuntimeEvent::TaskCompleted { task_id: [4u8; 16], result: "ok".to_string() }, None);
    assert!(matches!(a, LoopAction::CompleteTask { ref result, .. } if result == "ok"));
    let a = loop_dispatch(RuntimeEvent::TaskFailed { task_id: [4u8; 16], error: "bad".to_string() }, None);
    assert!(matches!(a, LoopAction::FailTask { ref error, .. } if error == "bad"));
    let a = loop_dispatch(RuntimeEvent::DecomposeTask { parent_agent: [5u8; 16], subtasks: vec![sub("a", &[])] }, None);
    assert!(matches!(a, LoopAction::Decompose { ref subtasks, .. } if subtasks.len() == 1));
    let a = loop_dispatch(RuntimeEvent::AgentFailed { agent_id: [6u8; 16], error: "x".to_string() }, None);
    assert!(matches!(a, LoopAction::Forward(RuntimeEvent::AgentFailed { .. })));
}

#[test]
fn decomposition_edges_follow_dependencies() {
    let subs = vec![sub("a", &[]), sub("b", &["a"]), sub("c", &["a", "b", "missing"])];
    assert_eq!(decomposition_edges(&subs), vec![(1, 0), (2, 0), (2, 1)]);
}

#[test]
fn decomposition_edges_use_last_duplicate_id() {
    // a repeated id names the later task, as the id map keeps the last one
    let subs = vec![sub("a", &[]), sub("a", &[]), sub("b", &["a"]), sub("a", &["b"])];
    assert_eq!(decomposition_edges(&subs), vec![(2, 3), (3, 2)]);
    assert!(decomposition_edges(&[]).is_empty());
}
