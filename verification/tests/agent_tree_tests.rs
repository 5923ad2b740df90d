use workflow::agent_tree::{
    build_agent_tree_lines, build_tool_trace_preview, has_active_delegations, Agent, AgentPool, AgentStatus,
    ToolCallRecord, ToolStatus,
};

type AgentId = [u8; 16];

fn stub_agent() -> Agent {
    Agent { id: [0u8; 16], name: String::new(), status: AgentStatus::Idle, children: Vec::new(), tool_trace: Vec::new() }
}

fn build_test_pool_with_hierarchy() -> (AgentPool, AgentId) {
    let mut pool = AgentPool::new();
    let root_id: AgentId = [0u8; 16];
    let dev_id: AgentId = [1u8; 16];
    let rev_id: AgentId = [2u8; 16];
    pool.add_agent(Agent {
        id: root_id,
        name: "planner".into(),
        status: AgentStatus::AwaitingChildren,
        children: vec![dev_id, rev_id],
        ..stub_agent()
    });
    pool.add_agent(Agent { id: dev_id, name: "developer".into(), status: AgentStatus::Planning, ..stub_agent() });
    pool.add_agent(Agent { id: rev_id, name: "checker".into(), status: AgentStatus::Completed, ..stub_agent() });
    (pool, root_id)
}

#[test]
fn test_tree_single_root_no_children() {
    let mut pool = AgentPool::new();
    let id = [0u8; 16];
    pool.add_agent(Agent { id, name: "solo".into(), status: AgentStatus::Completed, ..stub_agent() });
    let lines = build_agent_tree_lines(&pool, &id);
    assert_eq!(lines.len(), 1);
    assert!(lines[0].display_text.starts_with("* "));
    assert!(lines[0].display_text.contains("Completed"));
    assert_eq!(lines[0].agent_id, id);
}

#[test]
fn test_tree_hierarchy_indentation() {
    let (pool, root_id) = build_test_pool_with_hierarchy();
    let lines = build_agent_tree_lines(&pool, &root_id);
    assert_eq!(lines.len(), 3, "should have root + 2 children");
    assert!(lines[0].display_text.starts_with("* "), "root prefix: {:?}", lines[0].display_text);
    assert!(lines[0].display_text.contains("Awaiting"));
    assert!(lines[1].display_text.starts_with("|-* "), "first child prefix: {:?}", lines[1].display_text);
    assert!(lines[1].display_text.contains("Planning"));
    assert!(lines[2].display_text.starts_with("`-* "), "last child prefix: {:?}", lines[2].display_text);
    assert!(lines[2].display_text.contains("Completed"));
}

#[test]
fn test_tree_root_not_found_returns_empty() {
    let pool = AgentPool::new();
    let lines = build_agent_tree_lines(&pool, &[42u8; 16]);
    assert!(lines.is_empty());
}

#[test]
fn test_has_active_delegations_true_when_child_active() {
    let (pool, root_id) = build_test_pool_with_hierarchy();
    assert!(has_active_delegations(&pool, &root_id));
}

#[test]
fn test_has_active_delegations_false_when_all_done() {
    let mut pool = AgentPool::new();
    let root_id = [0u8; 16];
    let child_id = [1u8; 16];
    pool.add_agent(Agent {
        id: root_id,
        name: "root".into(),
        status: AgentStatus::Completed,
        children: vec![child_id],
        ..stub_agent()
    });
    pool.add_agent(Agent { id: child_id, name: "child".into(), status: AgentStatus::Completed, ..stub_agent() });
    assert!(!has_active_delegations(&pool, &root_id));
}

#[test]
fn test_has_active_delegations_false_no_children() {
    let mut pool = AgentPool::new();
    let root_id = [0u8; 16];
    pool.add_agent(Agent { id: root_id, name: "lonely".into(), status: AgentStatus::Planning, ..stub_agent() });
    assert!(!has_active_delegations(&pool, &root_id));
}

#[test]
fn test_deep_nested_tree_uses_correct_prefixes() {
    let mut pool = AgentPool::new();
    let root_id = [0u8; 16];
    let mid_id = [1u8; 16];
    let leaf_id = [2u8; 16];
    let other_id = [3u8; 16];
    pool.add_agent(Agent { id: other_id, name: "sibling".into(), ..stub_agent() });
    pool.add_agent(Agent {
        id: root_id,
        name: "root".into(),
        status: AgentStatus::AwaitingChildren,
        children: vec![mid_id, other_id],
        ..stub_agent()
    });
    pool.add_agent(Agent {
        id: mid_id,
        name: "middle".into(),
        status: AgentStatus::AwaitingChildren,
        children: vec![leaf_id],
        ..stub_agent()
    });
    pool.add_agent(Agent { id: leaf_id, name: "leaf".into(), status: AgentStatus::Planning, ..stub_agent() });
    let lines = build_agent_tree_lines(&pool, &root_id);
    assert_eq!(lines.len(), 4, "root + middle + leaf + sibling");
    assert!(lines[0].display_text.starts_with("* "), "root: {:?}", lines[0].display_text);
    assert!(lines[1].display_text.starts_with("|-* "), "middle: {:?}", lines[1].display_text);
    assert!(lines[2].display_text.starts_with("  `-* "), "leaf prefix: {:?}", lines[2].display_text);
    assert!(lines[3].display_text.starts_with("`-* "), "sibling prefix: {:?}", lines[3].display_text);
}

#[test]
fn test_tool_trace_preview_empty_when_no_trace() {
    let mut pool = AgentPool::new();
    let id = [0u8; 16];
    pool.add_agent(Agent { id, name: "quiet".into(), status: AgentStatus::Completed, ..stub_agent() });
    let preview = build_tool_trace_preview(&pool, &id);
    assert!(preview.is_empty(), "no tools called -> empty preview");
}

fn record(name: &str, args: &str, status: ToolStatus) -> ToolCallRecord {
    ToolCallRecord { name: name.into(), args_preview: args.into(), status, error_message: None }
}

#[test]
fn test_tool_trace_preview_returns_up_to_three() {
    let mut pool = AgentPool::new();
    let id = [0u8; 16];
    pool.add_agent(Agent {
        id,
        name: "busy".into(),
        status: AgentStatus::Completed,
        tool_trace: vec![
            record("read_file", "\"path\": \"src/main.rs\"", ToolStatus::Success),
            record("sh", "\"command\": \"grep fn main\"", ToolStatus::Success),
            record("write_file", "\"path\": \"src/lib.rs\"", ToolStatus::Success),
        ],
        ..stub_agent()
    });
    let preview = build_tool_trace_preview(&pool, &id);
    assert_eq!(preview.len(), 3, "all 3 entries returned");
    assert!(preview[0].contains("write_file"), "most recent first: {}", preview[0]);
    assert!(preview[2].contains("read_file"), "oldest last: {}", preview[2]);
}

#[test]
fn test_tool_trace_preview_truncates_beyond_three() {
    let mut pool = AgentPool::new();
    let id = [0u8; 16];
    let trace: Vec<ToolCallRecord> = (0..5).map(|i| record(&format!("tool_{}", i), "", ToolStatus::Success)).collect();
    pool.add_agent(Agent { id, name: "overdrive".into(), status: AgentStatus::Completed, tool_trace: trace, ..stub_agent() });
    let preview = build_tool_trace_preview(&pool, &id);
    assert_eq!(preview.len(), 3, "capped at 3");
    assert!(preview[0].contains("tool_4"), "most recent tool_4: {}", preview[0]);
    assert!(preview[2].contains("tool_2"), "oldest shown tool_2: {}", preview[2]);
}

#[test]
fn test_tool_trace_preview_handles_error_status() {
    let mut pool = AgentPool::new();
    let id = [0u8; 16];
    pool.add_agent(Agent {
        id,
        name: "faulty".into(),
        status: AgentStatus::Failed,
        tool_trace: vec![record("sh", "\"command\": \"rm -rf /\"", ToolStatus::Error)],
        ..stub_agent()
    });
    let preview = build_tool_trace_preview(&pool, &id);
    assert_eq!(preview.len(), 1);
    assert!(preview[0].contains('\u{2717}'), "error marker present");
}

#[test]
fn tree_line_layout() {
    let mut pool = AgentPool::new();
    let id = [9u8; 16];
    pool.add_agent(Agent { id, name: "a-very-long-agent-name-here".into(), status: AgentStatus::Idle, ..stub_agent() });
    let lines = build_agent_tree_lines(&pool, &id);
    assert_eq!(lines[0].display_text, "*     a-very-long-agent-n\u{2026}   [Idle]");
}
