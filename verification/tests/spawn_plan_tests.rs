use workflow::spawn_plan::{agent_display_name, parent_span_id, plan_name, spawn_route, RouteError, SpawnRoute};
use workflow::types::SpawnParent;

#[test]
fn routes_by_value_statement_and_parent() {
    assert!(matches!(spawn_route(false, None, 5), Ok(SpawnRoute::Bootstrap)));
    assert!(matches!(spawn_route(true, None, 5), Ok(SpawnRoute::RootPipeline)));
    let parent = SpawnParent { id: [7u8; 16], depth: 2 };
    match spawn_route(true, Some(parent), 5) {
        Ok(SpawnRoute::ChildPipeline { parent_id, depth }) => {
            assert_eq!(parent_id, [7u8; 16]);
            assert_eq!(depth, 3);
        }
        other => panic!("unexpected {:?}", other),
    }
    assert_eq!(spawn_route(false, Some(parent), 5).unwrap_err(), RouteError::ChildWithoutValueStatement);
}

#[test]
fn depth_limit_refuses_deep_children() {
    let parent = SpawnParent { id: [1u8; 16], depth: 4 };
    let e = spawn_route(true, Some(parent), 5).unwrap_err();
    assert_eq!(e, RouteError::DepthLimit { max_depth: 5, depth: 5 });
    assert_eq!(e.message("coder"), "Agent depth limit (5) reached \u{2014} cannot spawn 'coder' at depth 5");
    assert_eq!(
        RouteError::ChildWithoutValueStatement.message("coder"),
        "Cannot spawn a child agent without a value statement (bootstrap child not supported)"
    );
}

#[test]
fn names_carry_id_bytes_in_hex() {
    let mut id = [0u8; 16];
    id[0] = 0xab;
    id[1] = 0x0c;
    assert_eq!(agent_display_name("coder", &id), "coder-ab0c");
    assert_eq!(plan_name("coder", "write the parser for json files", &id), "coder-write the parser-00ab");
    assert_eq!(plan_name("qa", "test", &id), "qa-test-00ab");
}

#[test]
fn parent_span_is_little_endian() {
    let mut id = [0u8; 16];
    for (i, b) in id.iter_mut().enumerate() {
        *b = i as u8 + 1;
    }
    assert_eq!(parent_span_id(&id), u64::from_le_bytes([1, 2, 3, 4, 5, 6, 7, 8]));
    assert_eq!(parent_span_id(&[0xffu8; 16]), u64::MAX);
}
