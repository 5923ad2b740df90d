use workflow::bridge::{bridge_step, AppNotice};
use workflow::types::{MessageRole, RuntimeEvent};

#[test]
fn test_broker_bumps_tree_version_on_any_event() {
    let s = bridge_step(RuntimeEvent::ActivateAgent { agent_id: [1u8; 16], parent_id: None }, 0, None);
    assert!(s.tree_version > 0, "version should be bumped");
    assert!(s.notice.is_none() && s.chat_message.is_none() && !s.enable_input);
    let s = bridge_step(RuntimeEvent::ReadyForAggregation { agent_id: [1u8; 16] }, u64::MAX, None);
    assert_eq!(s.tree_version, 0);
}

#[test]
fn test_broker_sends_system_log_on_child_completed() {
    let s = bridge_step(
        RuntimeEvent::ChildCompleted { parent_id: [0u8; 16], child_id: [1u8; 16], result: "done".to_string() },
        0,
        None,
    );
    match s.notice {
        Some(AppNotice::SystemLog { content }) => {
            assert!(content.contains("completed"), "log: {}", content);
            assert_eq!(content, "[OK] Agent ..0101 completed\ndone");
        }
        _ => panic!("expected SystemLog"),
    }
}

#[test]
fn test_broker_resets_input_on_failure() {
    let s = bridge_step(RuntimeEvent::AgentFailed { agent_id: [0xAB; 16], error: "OOM".to_string() }, 3, None);
    assert!(s.enable_input);
    match s.notice {
        Some(AppNotice::ChatError { response_index, request_id, error }) => {
            assert_eq!((response_index, request_id), (0, 0));
            assert_eq!(error, "Agent ..abab failed: OOM");
        }
        _ => panic!("expected ChatError"),
    }
}

#[test]
fn child_result_goes_to_responsible_agent() {
    let long = "x".repeat(200);
    let s = bridge_step(
        RuntimeEvent::ChildCompleted { parent_id: [9u8; 16], child_id: [0x12, 0x34, 0, 0, 0, 0, 0, 0, 0, 0, 0, 0, 0, 0, 0, 0], result: long },
        7,
        Some([9u8; 16]),
    );
    assert_eq!(s.tree_version, 8);
    let expected = format!("[OK] Agent ..1234 completed\n{}", "x".repeat(120));
    match (s.chat_message, s.agent_context) {
        (Some((MessageRole::System, text)), Some((id, ctx))) => {
            assert_eq!(text, expected);
            assert_eq!(ctx, expected);
            assert_eq!(id, [9u8; 16]);
        }
        _ => panic!("expected chat and context messages"),
    }
    assert!(s.notice.is_none());
}

#[test]
fn aggregation_and_inbox_events() {
    let s = bridge_step(RuntimeEvent::AggregationCompleted { agent_id: [1u8; 16], result: "final".into() }, 0, None);
    assert!(s.enable_input);
    assert!(matches!(s.chat_message, Some((MessageRole::Agent, ref t)) if t == "final"));
    let s = bridge_step(
        RuntimeEvent::InboxMessage { agent_id: [0u8; 16], from_name: "planner".into(), preview: "p".into(), unread_count: 3 },
        0,
        None,
    );
    assert!(matches!(s.notice, Some(AppNotice::SystemLog { ref content }) if content == "Message from planner -> ..0000 (3 unread)"));
    let s = bridge_step(RuntimeEvent::ReadyForAggregation { agent_id: [5u8; 16] }, 0, None);
    assert!(matches!(s.notice, Some(AppNotice::AggregationStarting { agent_id }) if agent_id == [5u8; 16]));
}
