use workflow::handoff::{deliver, reset_for_retry, InboxMessage, RunRecord};
use workflow::agent_tree::{has_active_delegations, Agent, AgentPool, AgentStatus};
use workflow::handoff::{
    after_run, aggregation_fallback, asset_id, child_handoff, children_settled, failure_message, needs_asset,
    take_chars, AfterRun,
};

fn agent(id: u8, name: &str, status: AgentStatus, children: Vec<[u8; 16]>) -> Agent {
    Agent { id: [id; 16], name: name.to_string(), status, children, tool_trace: vec![] }
}

fn pool_with_parent_and_two_children(a: AgentStatus, b: AgentStatus) -> AgentPool {
    let mut pool = AgentPool::new();
    pool.add_agent(agent(0, "planner", AgentStatus::AwaitingChildren, vec![[1u8; 16], [2u8; 16]]));
    pool.add_agent(agent(1, "dev-a", a, vec![]));
    pool.add_agent(agent(2, "dev-b", b, vec![]));
    pool
}

#[test]
fn test_maybe_advance_parent_not_done_yet() {
    let pool = pool_with_parent_and_two_children(AgentStatus::Completed, AgentStatus::Planning);
    assert_eq!(children_settled(&pool, &[0u8; 16]), Some(false));
    assert!(has_active_delegations(&pool, &[0u8; 16]));
}

#[test]
fn test_maybe_advance_parent_all_done() {
    let pool = pool_with_parent_and_two_children(AgentStatus::Completed, AgentStatus::Completed);
    assert_eq!(children_settled(&pool, &[0u8; 16]), Some(true));
    assert!(!has_active_delegations(&pool, &[0u8; 16]));
}

#[test]
fn test_advance_skipped_when_child_failed() {
    let pool = pool_with_parent_and_two_children(AgentStatus::Completed, AgentStatus::Failed);
    assert_eq!(children_settled(&pool, &[0u8; 16]), Some(true), "Failed should count as terminal");
}

#[test]
fn unknown_parent_or_child_is_not_settled() {
    let pool = pool_with_parent_and_two_children(AgentStatus::Completed, AgentStatus::Completed);
    assert_eq!(children_settled(&pool, &[9u8; 16]), None);
    let mut pool = AgentPool::new();
    pool.add_agent(agent(0, "planner", AgentStatus::AwaitingChildren, vec![[5u8; 16]]));
    assert_eq!(children_settled(&pool, &[0u8; 16]), Some(false));
}

#[test]
fn failed_runs_retry_while_allowed() {
    assert_eq!(after_run(AgentStatus::Failed, 0, 2), AfterRun::Retry { retry_count: 1 });
    assert_eq!(after_run(AgentStatus::Failed, 2, 2), AfterRun::Report);
    assert_eq!(after_run(AgentStatus::Completed, 0, 2), AfterRun::Report);
}

#[test]
fn small_results_pass_through() {
    let h = child_handoff("all done", Some("[asset ID: a1]"));
    assert_eq!(h.summary, "all done");
    assert!(h.payload.is_none());
    assert!(!needs_asset(&"x".repeat(1024)));
    assert!(needs_asset(&"x".repeat(1025)));
}

#[test]
fn large_results_point_to_their_asset() {
    let result = "y".repeat(3000);
    let h = child_handoff(&result, Some("[Asset stored. ID:  abc-1 ] use SearchAsset"));
    assert_eq!(h.summary, format!("[\u{2248}2KB, asset: abc-1]\n{}", "y".repeat(200)));
    let p = h.payload.unwrap();
    assert_eq!(p.asset_id, "abc-1");
    assert_eq!(p.tool_name, "agent_result");
    assert_eq!(p.hint, "Agent produced 3000 bytes");
    // without a stored asset the first 512 characters go over
    let h = child_handoff(&result, None);
    assert_eq!(h.summary, "y".repeat(512));
    assert!(h.payload.is_none());
}

#[test]
fn asset_id_needs_marker_and_bracket() {
    assert_eq!(asset_id("ID: x]"), "x");
    assert_eq!(asset_id("no id here]"), "");
    assert_eq!(asset_id("ID: open"), "");
    assert_eq!(take_chars("h\u{e9}llo", 2), "h\u{e9}");
}

#[test]
fn failure_and_fallback_texts() {
    assert_eq!(failure_message(""), "Agent execution failed (no result)");
    assert_eq!(failure_message("boom"), "boom");
    assert_eq!(
        aggregation_fallback("timeout", &[]),
        "Aggregation synthesis failed: timeout\n\nAll sub-tasks completed but no results were captured."
    );
    assert_eq!(
        aggregation_fallback("timeout", &[([1u8; 16], "a".to_string()), ([2u8; 16], "b".to_string())]),
        "Aggregation synthesis failed (timeout).  Raw sub-task results:\n\n---\na\n\n---\n\nb\n\n---\n*Degraded output*"
    );
}

#[test]
fn full_inbox_drops_the_oldest() {
    let msg = |t: u64| InboxMessage { from: [1u8; 16], from_name: "c".into(), content: format!("m{}", t), payload: None, timestamp: t };
    let mut inbox = vec![];
    deliver(&mut inbox, msg(1), 2);
    deliver(&mut inbox, msg(2), 2);
    deliver(&mut inbox, msg(3), 2);
    let contents: Vec<&str> = inbox.iter().map(|m| m.content.as_str()).collect();
    assert_eq!(contents, vec!["m2", "m3"]);
}

#[test]
fn retry_reset_clears_the_run() {
    let mut run = RunRecord { status: AgentStatus::Failed, result: Some("boom".into()), retry_count: 1 };
    reset_for_retry(&mut run);
    assert_eq!(run.status, AgentStatus::Idle);
    assert!(run.result.is_none());
    assert_eq!(run.retry_count, 2);
}
