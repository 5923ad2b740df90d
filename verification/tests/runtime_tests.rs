use workflow::agent::AgentEvent;
use workflow::command::parse_project_arg;
use workflow::config::{DefaultConfigSource, ProviderConfig, ProviderProtocol};
use workflow::guard::SpawnRejection;
use workflow::agent::AgentInfo;
use workflow::role::Role;
use workflow::runtime::{
    append_text, record_agent_event, role_info, snapshot_selection, ConversationMessage, RuntimeConfig, WorkflowEvent,
};
use workflow::types::DependencyShape;

#[test]
fn runtime_config_prefers_keyed_provider() {
    let merged = vec![
        ProviderConfig { id: "local".into(), protocol: ProviderProtocol::Ollama, ..Default::default() },
        ProviderConfig {
            id: "paid".into(),
            protocol: ProviderProtocol::OpenAi,
            api_key: "k".into(),
            models: vec!["m1".into(), "m2".into()],
            ..Default::default()
        },
    ];
    let c = RuntimeConfig::from_merged(merged, String::new());
    assert_eq!(c.provider.id, "paid");
    assert_eq!(c.model, "m1");
    assert_eq!(c.agent_capacity, 100);
}

#[test]
fn runtime_config_fallbacks() {
    let c = RuntimeConfig::from_merged(vec![], "env-key".into());
    assert_eq!(c.provider.id, "opencode");
    assert_eq!(c.provider.api_key, "env-key");
    assert_eq!(c.model, "big-pickle");
    let c = RuntimeConfig::from_merged(vec![ProviderConfig { id: "x".into(), ..Default::default() }], String::new());
    assert_eq!(c.provider.id, "x");
    assert_eq!(c.provider.models, vec!["big-pickle".to_string()]);
    let c = RuntimeConfig::resolve(&[&DefaultConfigSource], String::new());
    assert_eq!(c.provider.id, "openai");
}

#[test]
fn transcript_appends_by_kind() {
    let mut ms = vec![ConversationMessage::User { text: "hi".into() }];
    append_text(&mut ms, "Hel", false);
    append_text(&mut ms, "lo", false);
    append_text(&mut ms, "hmm", true);
    assert_eq!(ms.len(), 3);
    assert!(matches!(&ms[1], ConversationMessage::Text { text } if text == "Hello"));
    assert!(matches!(&ms[2], ConversationMessage::Thinking { text } if text == "hmm"));
}

#[test]
fn workflow_event_text() {
    let e = WorkflowEvent::AgentOutput { agent_id: 1, event: AgentEvent::Reasoning("r".into()) };
    assert_eq!(e.text(), Some("r"));
    assert_eq!(e.error(), None);
    let e = WorkflowEvent::AgentOutput { agent_id: 1, event: AgentEvent::Error("boom".into()) };
    assert_eq!(e.error(), Some("boom"));
    assert_eq!(WorkflowEvent::ResyncRequired.text(), None);
}

#[test]
fn project_argument_forms() {
    let a = |v: &[&str]| v.iter().map(|s| s.to_string()).collect::<Vec<String>>();
    assert_eq!(parse_project_arg(&a(&["--project", "/x"])), Some("/x".to_string()));
    assert_eq!(parse_project_arg(&a(&["-v", "-p", "y"])), Some("y".to_string()));
    assert_eq!(parse_project_arg(&a(&["--project=/z"])), Some("/z".to_string()));
    assert_eq!(parse_project_arg(&a(&["-p=w"])), Some("w".to_string()));
    assert_eq!(parse_project_arg(&a(&["--project"])), None);
    assert_eq!(parse_project_arg(&a(&[])), None);
}

#[test]
fn spawn_rejection_messages() {
    assert_eq!(SpawnRejection::BudgetExhausted { requested: 5, remaining: -3 }.message(), "budget exhausted: requested 5, remaining -3");
    assert_eq!(SpawnRejection::DepthExceeded { current: 2, max: 2 }.message(), "depth exceeded: current 2, max 2");
    assert_eq!(SpawnRejection::L2Collapsed.message(), "L2 collapsed");
}

#[test]
fn dependency_shapes() {
    assert_eq!(DependencyShape::classify(1, &[]), DependencyShape::Atomic);
    assert_eq!(DependencyShape::classify(3, &[0, 0]), DependencyShape::FanOut);
    assert_eq!(DependencyShape::classify(3, &[1, 2]), DependencyShape::FanIn);
    assert_eq!(DependencyShape::classify(3, &[0, 1]), DependencyShape::Chain);
    assert_eq!(DependencyShape::classify(4, &[0, 1]), DependencyShape::Dag);
}

fn tool_parts(m: &ConversationMessage) -> (String, Option<String>) {
    match m {
        ConversationMessage::Tool { text, result } => (text.clone(), result.clone()),
        _ => panic!("expected a tool entry"),
    }
}

#[test]
fn transcript_records_tool_calls_and_results() {
    let mut ms: Vec<ConversationMessage> = Vec::new();
    record_agent_event(&mut ms, &AgentEvent::Text("Let me look.".to_string()));
    record_agent_event(&mut ms, &AgentEvent::ToolCall { name: "read_file".into(), params: "{\"path\":\"a\"}".into() });
    record_agent_event(&mut ms, &AgentEvent::ToolCall { name: "read_file".into(), params: "{\"path\":\"b\"}".into() });
    record_agent_event(&mut ms, &AgentEvent::ToolResult { name: "read_file".into(), result: "B".into() });
    assert_eq!(ms.len(), 3);
    assert_eq!(tool_parts(&ms[1]), ("read_file: {\"path\":\"a\"}".to_string(), None));
    assert_eq!(tool_parts(&ms[2]), ("read_file: {\"path\":\"b\"}".to_string(), Some("B".to_string())));
    record_agent_event(&mut ms, &AgentEvent::ToolResult { name: "read_file".into(), result: "A".into() });
    assert_eq!(tool_parts(&ms[1]).1, Some("A".to_string()));
    record_agent_event(&mut ms, &AgentEvent::ToolResult { name: "sh".into(), result: "ok".into() });
    assert_eq!(ms.len(), 4);
    assert_eq!(tool_parts(&ms[3]), ("sh".to_string(), Some("ok".to_string())));
    record_agent_event(&mut ms, &AgentEvent::Error("boom".into()));
    assert!(matches!(&ms[4], ConversationMessage::Error { text } if text == "boom"));
    record_agent_event(&mut ms, &AgentEvent::TurnComplete);
    assert_eq!(ms.len(), 5);
}

#[test]
fn transcript_streams_reasoning_separately() {
    let mut ms: Vec<ConversationMessage> = Vec::new();
    record_agent_event(&mut ms, &AgentEvent::Reasoning("think ".into()));
    record_agent_event(&mut ms, &AgentEvent::Reasoning("more".into()));
    record_agent_event(&mut ms, &AgentEvent::Text("answer".into()));
    assert_eq!(ms.len(), 2);
    assert!(matches!(&ms[0], ConversationMessage::Thinking { text } if text == "think more"));
}

#[test]
fn role_info_uses_the_name_as_id() {
    let r = role_info(&Role::new("coder".into(), "writes code".into(), vec![]));
    assert_eq!(r.id, "coder");
    assert_eq!(r.name, "coder");
    assert_eq!(r.definition, "writes code");
}

#[test]
fn snapshot_shows_requested_or_first_agent() {
    let agents = vec![
        AgentInfo { id: 4, role: "planner".into(), current_task: None },
        AgentInfo { id: 9, role: "coder".into(), current_task: None },
    ];
    assert_eq!(snapshot_selection(&agents, Some(9)), Some(9));
    assert_eq!(snapshot_selection(&agents, None), Some(4));
    assert_eq!(snapshot_selection(&[], None), None);
}
