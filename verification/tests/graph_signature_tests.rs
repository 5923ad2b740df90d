use workflow::graph_signature::{GraphNode, GraphSnapshot};
use workflow::types::{DependencyShape, WorkflowSignature};

fn node(parent: Option<usize>, role: Option<&str>, children: Vec<usize>, deps: Vec<usize>, chain: usize) -> GraphNode {
    GraphNode {
        parent,
        role: role.map(|r| r.to_string()),
        children,
        dependencies: deps,
        ancestor_chain_len: chain,
    }
}

#[test]
fn fan_in_graph_signature() {
    let g = GraphSnapshot {
        nodes: vec![
            node(None, Some("lead"), vec![1, 2, 3], vec![], 1),
            node(Some(0), Some("dev"), vec![], vec![], 2),
            node(Some(0), Some("dev"), vec![], vec![], 2),
            node(Some(0), Some("test"), vec![], vec![1, 2], 2),
        ],
        topological_order: Some(vec![0, 1, 2, 3]),
    };
    let s = WorkflowSignature::from_graph(&g);
    assert_eq!(s.shape, DependencyShape::FanIn);
    assert_eq!(s.roles_used, vec!["dev".to_string(), "lead".to_string(), "test".to_string()]);
    assert_eq!(s.role_count, 3);
    assert_eq!(s.depth, 1);
    assert_eq!(s.critical_path_length, 1);
}

#[test]
fn nested_children_give_depth_and_path() {
    let g = GraphSnapshot {
        nodes: vec![
            node(None, None, vec![1], vec![], 1),
            node(Some(0), Some("dev"), vec![2], vec![], 2),
            node(Some(1), Some("dev"), vec![], vec![], 3),
        ],
        topological_order: Some(vec![0, 1, 2]),
    };
    let s = WorkflowSignature::from_graph(&g);
    assert_eq!(s.shape, DependencyShape::FanOut);
    assert_eq!(s.roles_used, vec!["dev".to_string()]);
    assert_eq!(s.depth, 2);
    assert_eq!(s.critical_path_length, 2);
}

#[test]
fn chain_shape_and_missing_order() {
    let g = GraphSnapshot {
        nodes: vec![
            node(None, Some("lead"), vec![1, 2], vec![], 1),
            node(Some(0), Some("dev"), vec![], vec![], 2),
            node(Some(0), Some("qa"), vec![], vec![1], 2),
        ],
        topological_order: None,
    };
    let s = WorkflowSignature::from_graph(&g);
    assert_eq!(s.shape, DependencyShape::Chain);
    assert_eq!(s.critical_path_length, 0);
    // every role once, taken by one task each, in graph order
    assert_eq!(s.roles_used, vec!["lead".to_string(), "dev".to_string(), "qa".to_string()]);
}

#[test]
fn single_and_empty_graphs_are_atomic() {
    let one = GraphSnapshot { nodes: vec![node(None, None, vec![], vec![], 1)], topological_order: Some(vec![0]) };
    let s = WorkflowSignature::from_graph(&one);
    assert_eq!(s.shape, DependencyShape::Atomic);
    assert_eq!((s.role_count, s.depth, s.critical_path_length), (0, 0, 0));
    let empty = GraphSnapshot { nodes: vec![], topological_order: Some(vec![]) };
    let s = WorkflowSignature::from_graph(&empty);
    assert_eq!(s.shape, DependencyShape::Atomic);
    assert!(s.roles_used.is_empty());
}
