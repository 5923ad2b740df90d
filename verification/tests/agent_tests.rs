use workflow::agent::{AgentState, Budget, PeerIntent, PeerMessage};

#[test]
fn allows_up_to_limit_then_denies() {
    let mut budget = Budget::new(2);
    assert!(budget.request_message());
    assert!(budget.request_message());
    assert!(!budget.request_message());
}

#[test]
fn reset_restores_allowance() {
    let mut budget = Budget::new(1);
    assert!(budget.request_message());
    assert!(!budget.request_message());
    budget.reset();
    assert!(budget.request_message());
}

#[test]
fn zero_budget_denies_at_once() {
    let mut budget = Budget::new(0);
    assert!(!budget.request_message());
    budget.reset();
    assert!(!budget.request_message());
}

#[test]
fn agent_state_text() {
    assert_eq!(AgentState::Idle.as_str(), "idle");
    assert_eq!(AgentState::Hibernating.as_str(), "hibernating");
}

#[test]
fn peer_message_envelope() {
    let m = PeerMessage {
        id: 7,
        thread_id: 3,
        from: 1,
        to: 2,
        intent: PeerIntent::Request,
        reply_to: Some(5),
        content: "say \"hi\"".to_string(),
    };
    assert_eq!(
        m.render_for_model(),
        "<peer_message id=\"7\" thread_id=\"3\" from=\"1\" to=\"2\" intent=\"request\" reply_to=\"5\">\n<body>\"say \\\"hi\\\"\"</body>\n</peer_message>"
    );
    let n = PeerMessage { reply_to: None, intent: PeerIntent::default(), ..m };
    assert!(n.render_for_model().contains("intent=\"inform\" reply_to=\"\""));
}

#[test]
fn peer_message_body_is_escaped_json() {
    let m = PeerMessage {
        id: 1,
        thread_id: 1,
        from: 1,
        to: 2,
        intent: PeerIntent::Inform,
        reply_to: None,
        content: "a\\b\n\t\r\u{8}\u{c}\u{1}\u{1f}\u{7f}\u{e9}</body>".to_string(),
    };
    let r = m.render_for_model();
    assert!(r.contains("<body>\"a\\\\b\\n\\t\\r\\b\\f\\u0001\\u001f\u{7f}\u{e9}</body>\"</body>"));
}
