use workflow::guard::SpawnRejection;
use workflow::types::{ChildAgentConfig, SpawnDecision};

#[test]
fn test_spawn_decision_approved() {
    let config = ChildAgentConfig {
        agent_id: [0xCC; 16],
        task_id: [0xDD; 16],
        allocated_budget: 3000,
        allowed_tools: 0b1111,
        role_template_id: Some(1),
    };
    let decision = SpawnDecision::Approved(config);
    match decision {
        SpawnDecision::Approved(c) => {
            assert_eq!(c.agent_id, [0xCC; 16]);
            assert_eq!(c.allocated_budget, 3000);
            assert_eq!(c.allowed_tools, 0b1111);
            assert_eq!(c.role_template_id, Some(1));
        }
        _ => panic!("expected Approved"),
    }
}

#[test]
fn test_spawn_decision_no_role_template() {
    let config = ChildAgentConfig {
        agent_id: [0xEE; 16],
        task_id: [0xFF; 16],
        allocated_budget: 1000,
        allowed_tools: 0,
        role_template_id: None,
    };
    let decision = SpawnDecision::Approved(config);
    match decision {
        SpawnDecision::Approved(c) => assert!(c.role_template_id.is_none()),
        _ => panic!("expected Approved"),
    }
}

#[test]
fn test_spawn_rejection_system_overloaded() {
    let err = SpawnRejection::SystemOverloaded;
    assert_eq!(err.message(), "system overloaded");
}

#[test]
fn test_spawn_rejection_budget_exhausted() {
    let err = SpawnRejection::BudgetExhausted { requested: 500, remaining: 100 };
    let msg = err.message();
    assert!(msg.contains("500"));
    assert!(msg.contains("100"));
}

#[test]
fn test_spawn_rejection_depth_exceeded() {
    let err = SpawnRejection::DepthExceeded { current: 5, max: 3 };
    let msg = err.message();
    assert!(msg.contains("5"));
    assert!(msg.contains("3"));
}

#[test]
fn test_spawn_rejection_resource_conflict() {
    let err = SpawnRejection::ResourceConflict { tool_id: 3, holder: [0x11; 16] };
    let msg = err.message();
    assert!(msg.contains("3"));
}

#[test]
fn test_spawn_rejection_l2_rejected() {
    let err = SpawnRejection::L2Rejected { reason: "value violation".to_string(), category: "safety".to_string() };
    let msg = err.message();
    assert!(msg.contains("value violation"));
    assert!(msg.contains("safety"));
}

#[test]
fn test_spawn_rejection_l2_collapsed() {
    let err = SpawnRejection::L2Collapsed;
    assert_eq!(err.message(), "L2 collapsed");
}

#[test]
fn rejected_decision_carries_reason() {
    match SpawnDecision::Rejected(SpawnRejection::SystemOverloaded) {
        SpawnDecision::Rejected(r) => assert_eq!(r.message(), "system overloaded"),
        _ => panic!("expected Rejected"),
    }
}
