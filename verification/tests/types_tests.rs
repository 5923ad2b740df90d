use workflow::types::{DecomposeTaskArgs, EmbeddingStrategy, SpawnParent, SubtaskDef};
use workflow::types::{
    AgentId, ChatMessage, ChildAgentConfig, MessageRole, MessageStatus, RawTextRef, RuntimeEvent, SpanId, TaskId,
    TraceId,
};

#[test]
fn test_raw_text_ref() {
    let r = RawTextRef { offset: 0, length: 100, source_hash: [0xAB; 32] };
    assert_eq!(r.offset, 0);
    assert_eq!(r.length, 100);
    assert_eq!(r.source_hash, [0xAB; 32]);
}

#[test]
fn test_type_aliases_size() {
    assert_eq!(std::mem::size_of::<TaskId>(), 16);
    assert_eq!(std::mem::size_of::<TraceId>(), 16);
    assert_eq!(std::mem::size_of::<AgentId>(), 16);
    assert_eq!(std::mem::size_of::<SpanId>(), 8);
}

#[test]
fn child_config_default_allows_every_tool() {
    let c = ChildAgentConfig::default();
    assert_eq!(c.allowed_tools, u64::MAX);
    assert_eq!(c.allocated_budget, 0);
    assert!(c.role_template_id.is_none());
}

#[test]
fn chat_message_defaults() {
    let m = ChatMessage::system("hello".to_string(), "12:00:00".to_string());
    assert_eq!(m.role, MessageRole::System);
    assert_eq!(m.status, MessageStatus::Completed);
    assert_eq!(m.timestamp, "12:00:00");
    let d = ChatMessage::default();
    assert!(d.content.is_empty() && d.chunks.is_empty());
}

#[test]
fn runtime_event_labels() {
    let e = RuntimeEvent::ReadyForAggregation { agent_id: [0; 16] };
    assert_eq!(e.label(), "ready-for-aggregation");
    let e = RuntimeEvent::TaskFailed { task_id: [1; 16], error: "x".into() };
    assert_eq!(e.label(), "task-failed");
}

#[test]
fn embedding_strategy_defaults_to_quality_first() {
    assert_eq!(EmbeddingStrategy::default(), EmbeddingStrategy::QualityFirst);
    assert_ne!(EmbeddingStrategy::LocalOnly, EmbeddingStrategy::RemoteOnly);
}

#[test]
fn decompose_args_hold_subtasks() {
    let args = DecomposeTaskArgs {
        reasoning: "split".to_string(),
        subtasks: vec![SubtaskDef {
            id: "a".to_string(),
            role: "coder".to_string(),
            goal: "write".to_string(),
            depend_on: vec![],
            auto_confirm: false,
        }],
    };
    assert_eq!(args.subtasks.len(), 1);
    let parent = SpawnParent { id: [7u8; 16], depth: 2 };
    assert_eq!(parent.depth, 2);
}
