use workflow::mcp_manager::{ConnectionRecord, McpRegistry, RegistryError, ToolFacts};

fn tool(name: &str, hint: Option<Option<bool>>) -> ToolFacts {
    ToolFacts { name: name.to_string(), destructive_hint: hint }
}

fn server(name: &str, dangerous: Option<Vec<&str>>) -> ConnectionRecord {
    ConnectionRecord {
        name: name.to_string(),
        tools: vec![tool("read", Some(Some(false))), tool("write", Some(Some(true))), tool("plain", None), tool("unset", Some(None))],
        dangerous_tools: dangerous.map(|d| d.iter().map(|s| s.to_string()).collect()),
    }
}

#[test]
fn connect_is_idempotent_and_disconnect_reports_unknown() {
    let mut r = McpRegistry::new();
    assert!(r.connect(server("fs", None)));
    assert!(!r.connect(server("fs", None)));
    assert!(r.is_connected("fs"));
    assert_eq!(r.list_connections().len(), 1);
    assert_eq!(r.list_connections()[0].1, vec!["read", "write", "plain", "unset"]);
    assert!(r.disconnect("fs").is_ok());
    assert!(!r.is_connected("fs"));
    match r.disconnect("fs") {
        Err(RegistryError::ServerNotFound(n)) => assert_eq!(n, "fs"),
        Ok(()) => panic!("second disconnect should fail"),
    }
}

#[test]
fn danger_by_configuration_or_hint() {
    let mut r = McpRegistry::new();
    r.connect(server("hinted", None));
    r.connect(server("listed", Some(vec!["read"])));
    r.connect(server("all", Some(vec!["*"])));
    assert!(!r.is_tool_dangerous("hinted", "read"));
    assert!(r.is_tool_dangerous("hinted", "write"));
    assert!(r.is_tool_dangerous("hinted", "plain"));
    assert!(r.is_tool_dangerous("hinted", "unset"));
    assert!(!r.is_tool_dangerous("hinted", "missing"));
    assert!(r.is_tool_dangerous("listed", "read"));
    assert!(!r.is_tool_dangerous("listed", "write"));
    assert!(r.is_tool_dangerous("all", "anything"));
    assert!(!r.is_tool_dangerous("nowhere", "read"));
}

#[test]
fn approvals_are_answered_once() {
    let mut r = McpRegistry::new();
    assert!(!r.resolve_approval("req-1"));
    r.request_approval("req-1");
    r.request_approval("req-2");
    assert!(r.resolve_approval("req-1"));
    assert!(!r.resolve_approval("req-1"));
    assert!(r.resolve_approval("req-2"));
}
