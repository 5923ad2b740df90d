use workflow::orchestrate::suggest_roles;

#[test]
fn suggest_roles_finds_word_overlap() {
    let available = vec![
        "planner".to_string(),
        "executor".to_string(),
        "code-auditor".to_string(),
        "coder".to_string(),
        "tester".to_string(),
    ];
    let suggestions = suggest_roles("coder", &available);
    assert!(suggestions.contains(&"coder".to_string()));
    assert!(suggestions.contains(&"code-auditor".to_string()));
}

#[test]
fn suggest_roles_limits_to_three() {
    let available = vec![
        "code-a".to_string(),
        "code-b".to_string(),
        "code-c".to_string(),
        "code-d".to_string(),
        "other".to_string(),
    ];
    let suggestions = suggest_roles("code", &available);
    assert!(suggestions.len() <= 3);
}

#[test]
fn suggest_roles_returns_all_when_no_words() {
    let available = vec!["planner".to_string(), "executor".to_string()];
    let suggestions = suggest_roles("ab", &available);
    assert_eq!(suggestions, available);
}

use workflow::orchestrate::{plan_tasks, plan_waves, RoleChecker, TaskDef, ToolError};

fn task(id: &str, role: &str, deps: &[&str]) -> TaskDef {
    TaskDef {
        id: id.to_string(),
        role: role.to_string(),
        task: format!("do {}", id),
        depend_on: deps.iter().map(|d| d.to_string()).collect(),
    }
}

struct Roles(Vec<String>);

impl RoleChecker for Roles {
    fn role_exists(&self, role: &str) -> bool {
        self.0.iter().any(|r| r == role)
    }
    fn list_roles(&self) -> Vec<String> {
        self.0.clone()
    }
}

#[test]
fn plan_waves_orders_by_dependencies() {
    let tasks = vec![task("a", "coder", &[]), task("b", "coder", &["a"]), task("c", "coder", &["a"]), task("d", "coder", &["b", "c"])];
    let plan = plan_waves(&tasks).unwrap();
    assert_eq!(plan.waves, vec![vec![0], vec![1, 2], vec![3]]);
    assert_eq!(plan.levels, vec![0, 1, 1, 2]);
    assert_eq!(plan.critical_path.len(), 3);
    assert_eq!(plan.critical_path.first().map(|s| s.as_str()), Some("a"));
    assert_eq!(plan.critical_path.last().map(|s| s.as_str()), Some("d"));
}

#[test]
fn plan_waves_errors() {
    assert!(matches!(plan_waves(&vec![]), Err(ToolError::Orchestrate(m)) if m == "task list is empty"));
    let dup = vec![task("a", "r", &[]), task("a", "r", &[])];
    assert!(matches!(plan_waves(&dup), Err(ToolError::Orchestrate(m)) if m == "duplicate task id: a"));
    let cyc = vec![task("a", "r", &["b"]), task("b", "r", &["a"])];
    assert!(matches!(plan_waves(&cyc), Err(ToolError::Orchestrate(m)) if m.starts_with("dependency cycle detected")));
    let unknown = vec![task("a", "r", &["zzz"])];
    assert!(matches!(plan_waves(&unknown), Err(ToolError::Orchestrate(_))));
}

#[test]
fn plan_tasks_checks_roles() {
    let roles = Roles(vec!["coder".to_string(), "code-auditor".to_string()]);
    let tasks = vec![task("a", "coders", &[])];
    match plan_tasks(&tasks, &roles) {
        Err(ToolError::RoleNotFound { requested, suggestions, available }) => {
            assert_eq!(requested, "coders");
            assert_eq!(available, roles.0);
            assert!(suggestions.len() <= 3);
        }
        other => panic!("unexpected: {:?}", other),
    }
    assert!(plan_tasks(&vec![task("a", "coder", &[])], &roles).is_ok());
}
