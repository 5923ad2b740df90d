use workflow::templates::TemplateInstantiation;
use workflow::types::TemplateRole;

#[test]
fn child_goal_uses_fragment_or_role() {
    let r = TemplateRole { role_name: "dev".to_string(), goal_fragment: "build the api".to_string() };
    assert_eq!(TemplateInstantiation::child_goal(&r), "build the api");
    let r = TemplateRole { role_name: "dev".to_string(), goal_fragment: String::new() };
    assert_eq!(TemplateInstantiation::child_goal(&r), "dev task from template");
}

#[test]
fn dependency_links_skip_missing_children() {
    // edges are (prerequisite, dependent); links are (dependent, prerequisite)
    let edges = [(0, 1), (1, 2), (2, 3), (3, 0)];
    assert_eq!(TemplateInstantiation::dependency_links(&edges, 3), vec![(1, 0), (2, 1)]);
    assert_eq!(TemplateInstantiation::dependency_links(&edges, 4), vec![(1, 0), (2, 1), (3, 2), (0, 3)]);
    assert!(TemplateInstantiation::dependency_links(&edges, 0).is_empty());
}
