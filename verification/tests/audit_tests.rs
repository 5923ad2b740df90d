use workflow::audit::{ArbitrationResult, L2RuleAuditEngine};
use workflow::guard::SpawnRejection;

fn agents() -> Vec<[u8; 16]> {
    vec![[1u8; 16], [2u8; 16]]
}

#[test]
fn test_basic_audit() {
    let mut engine = L2RuleAuditEngine::new(3);
    let result = engine.audit(&agents(), false, 0, 1000);
    assert!(matches!(result.decision, ArbitrationResult::Override { .. }));
}

#[test]
fn test_high_risk_prune() {
    let mut engine = L2RuleAuditEngine::new(3);
    let result = engine.audit(&agents(), true, 0, 1000);
    assert!(matches!(result.decision, ArbitrationResult::Prune(_)));
}

#[test]
fn test_collapse_after_failures() {
    let mut engine = L2RuleAuditEngine::new(2);
    engine.audit(&agents(), true, 0, 1000);
    engine.audit(&agents(), true, 0, 1000);
    let result = engine.audit(&agents(), true, 0, 1000);
    assert!(matches!(result.decision, ArbitrationResult::Prune(_)));
    assert!(result.risk_statement.contains("collapsed"));
}

#[test]
fn test_reset_failures() {
    let mut engine = L2RuleAuditEngine::new(2);
    engine.audit(&agents(), true, 0, 1000);
    engine.audit(&agents(), true, 0, 1000);
    engine.reset_failures();
    let result = engine.audit(&agents(), true, 0, 1000);
    assert!(!result.risk_statement.contains("collapsed"));
}

#[test]
fn override_slashes_the_others() {
    let mut engine = L2RuleAuditEngine::new(3);
    let a = vec![[1u8; 16], [2u8; 16], [3u8; 16]];
    let result = engine.audit(&a, false, 1, 1000);
    match result.decision {
        ArbitrationResult::Override { winner, slash_targets } => {
            assert_eq!(winner, [2u8; 16]);
            assert_eq!(slash_targets, vec![[1u8; 16], [3u8; 16]]);
        }
        _ => panic!("expected override"),
    }
    assert_eq!(result.override_patch_from, Some(1));
    assert_eq!(result.risk_statement, "Moderate risk");
}

#[test]
fn empty_contenders_are_pruned_safely() {
    let mut engine = L2RuleAuditEngine::new(3);
    let result = engine.audit(&[], false, 0, 1000);
    assert!(matches!(result.decision, ArbitrationResult::Prune(v) if v.is_empty()));
    assert_eq!(result.risk_statement, "No contending agents");
}

#[test]
fn collapse_recovers_with_time() {
    let mut engine = L2RuleAuditEngine::new(1);
    engine.audit(&agents(), true, 0, 1000);
    assert!(matches!(engine.screen_request(0, 5, 1000), Some(SpawnRejection::L2Collapsed)));
    assert!(engine.screen_request(0, 5, 1400).is_none());
}

#[test]
fn screen_refuses_deep_requests() {
    let mut engine = L2RuleAuditEngine::new(3);
    match engine.screen_request(9, 5, 0) {
        Some(SpawnRejection::L2Rejected { reason, category }) => {
            assert_eq!(reason, "Depth exceeds L2 safety limit");
            assert_eq!(category, "depth");
        }
        _ => panic!("expected a rejection"),
    }
}
