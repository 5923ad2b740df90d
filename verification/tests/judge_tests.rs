use workflow::audit::ArbitrationResult;
use workflow::judge::{
    build_judge_prompt, checked_decision, failed_audit, judge_json, ConflictType, JudgeDecision, L2LlmAuditEngine,
};

/// The judge's answer read from its JSON text.
fn parse_decision(content: &str) -> JudgeDecision {
    let v: serde_json::Value = serde_json::from_str(&judge_json(content)).unwrap();
    checked_decision(JudgeDecision {
        decision: v["decision"].as_str().unwrap().to_string(),
        winner_index: v["winner_index"].as_u64().map(|i| i as usize),
        risk_level: v["risk_level"].as_str().unwrap().to_string(),
        risk_statement: v["risk_statement"].as_str().unwrap().to_string(),
        lesson_learned: v["lesson_learned"].as_str().unwrap().to_string(),
    })
}

fn judge(decision: &str, winner: Option<usize>, risk: &str) -> JudgeDecision {
    JudgeDecision {
        decision: decision.to_string(),
        winner_index: winner,
        risk_level: risk.to_string(),
        risk_statement: "stmt".to_string(),
        lesson_learned: "lesson".to_string(),
    }
}

#[test]
fn test_build_judge_prompt() {
    let scores = format!("{:?}", [0.8f32, 0.3f32].as_slice());
    let prompt = build_judge_prompt(ConflictType::ActionContradiction, 2, &scores);
    assert!(prompt.contains("resource lock contention") || prompt.contains("action contradiction"));
    assert!(prompt.contains("override|merge|prune"));
}

#[test]
fn judge_prompt_lists_agents_by_index() {
    let prompt = build_judge_prompt(ConflictType::ValueDivergence, 3, "[0.1, 0.2, 0.3]");
    assert!(prompt.starts_with("Analyze this multi-agent conflict:\n\nConflict Type: value divergence\n"));
    assert!(prompt.contains("Contending Agents (indexed 0..2): Agent #0, Agent #1, Agent #2\nPriority Scores: [0.1, 0.2, 0.3]\n"));
    assert!(prompt.ends_with("\"lesson_learned\": \"what to remember for future\"\n}"));
    let none = build_judge_prompt(ConflictType::ResourceLockContention, 0, "[]");
    assert!(none.contains("Contending Agents (indexed 0..0): \nPriority Scores: []"));
}

#[test]
fn test_parse_decision_override_with_winner_index() {
    let json = r#"{"decision": "override", "winner_index": 0, "risk_level": "low", "risk_statement": "test", "lesson_learned": "test"}"#;
    let result = parse_decision(json);
    assert_eq!(result.decision, "override");
    assert_eq!(result.winner_index, Some(0), "winner_index should be Some(0)");
}

#[test]
fn judge_json_is_cut_out_and_minus_one_becomes_null() {
    let answer = "Sure! {\"decision\": \"prune\", \"winner_index\": -1, \"x\": {}} Thanks.";
    assert_eq!(judge_json(answer), "{\"decision\": \"prune\", \"winner_index\": null, \"x\": {}}");
    assert_eq!(judge_json("no braces"), "no braces");
    let full = "```json\n{\"decision\": \"prune\", \"winner_index\": -1, \"risk_level\": \"high\", \"risk_statement\": \"r\", \"lesson_learned\": \"l\"}\n```";
    let d = parse_decision(full);
    assert_eq!(d.decision, "prune");
    assert_eq!(d.winner_index, None);
}

#[test]
fn unusable_decision_becomes_prune_at_high_risk() {
    let d = checked_decision(judge("override", None, "low"));
    assert_eq!(d.decision, "prune");
    assert_eq!(d.risk_level, "high");
    assert_eq!(d.risk_statement, "Unable to determine winner, pruning for safety");
    assert_eq!(d.lesson_learned, "LLM output was ambiguous");
    let kept = checked_decision(judge("merge", None, "low"));
    assert_eq!(kept.decision, "merge");
}

#[test]
fn test_empty_contending_agents_handled_safely() {
    let json = r#"{"decision": "override", "winner_index": 0, "risk_level": "low", "risk_statement": "test", "lesson_learned": "test"}"#;
    let decision = parse_decision(json);
    let mut engine = L2LlmAuditEngine::new(3);
    assert!(engine.begin_audit(&[]).is_none());
    let r = engine.finish_audit(&[], &decision, 7);
    assert!(matches!(r.decision, ArbitrationResult::Prune(ref v) if v.is_empty()));
    assert_eq!(r.risk_statement, "No contending agents in manifest");
    assert_eq!(r.tokens_used, 7);
}

#[test]
fn test_medium_risk_resets_failure_counter() {
    let agents = [[1u8; 16], [2u8; 16]];
    let mut engine = L2LlmAuditEngine::new(3);
    engine.finish_audit(&agents, &judge("prune", None, "high"), 0);
    engine.finish_audit(&agents, &judge("prune", None, "high"), 0);
    assert_eq!(engine.consecutive_failures(), 2);
    engine.finish_audit(&agents, &judge("merge", None, "medium"), 0);
    assert_eq!(engine.consecutive_failures(), 0, "medium risk should reset to 0");
}

#[test]
fn test_consecutive_failures_saturates_during_collapse() {
    let agents = [[1u8; 16], [2u8; 16]];
    let mut engine = L2LlmAuditEngine::new(2);
    engine.finish_audit(&agents, &judge("prune", None, "high"), 0);
    engine.finish_audit(&agents, &judge("prune", None, "high"), 0);
    for _ in 0..20 {
        let r = engine.begin_audit(&agents).expect("collapsed auditor answers without the judge");
        assert_eq!(r.risk_statement, "L2 collapsed due to consecutive failures");
    }
    assert_eq!(engine.consecutive_failures(), 12, "counter should saturate at max_consecutive_failures + 10");
}

#[test]
fn override_names_winner_and_stops_the_rest() {
    let agents = [[1u8; 16], [2u8; 16], [3u8; 16]];
    let mut engine = L2LlmAuditEngine::new(3);
    let r = engine.finish_audit(&agents, &judge("override", Some(1), "low"), 42);
    match r.decision {
        ArbitrationResult::Override { winner, slash_targets } => {
            assert_eq!(winner, [2u8; 16]);
            assert_eq!(slash_targets, vec![[1u8; 16], [3u8; 16]]);
        }
        _ => panic!("expected Override"),
    }
    assert_eq!(r.override_patch_from, Some(1));
    let r = engine.finish_audit(&agents, &judge("override", Some(9), "low"), 0);
    assert!(matches!(r.decision, ArbitrationResult::Override { winner, .. } if winner == [1u8; 16]));
    assert_eq!(r.override_patch_from, Some(0));
}

#[test]
fn failed_audit_prunes_everyone() {
    let r = failed_audit(&[[5u8; 16]], "timeout");
    assert_eq!(r.risk_statement, "LLM audit error: timeout");
    assert_eq!(r.lesson_learned, "LLM audit failed, pruning for safety");
    assert!(matches!(r.decision, ArbitrationResult::Prune(ref v) if v.len() == 1));
}
