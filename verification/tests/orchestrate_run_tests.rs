use workflow::orchestrate_run::assign_agents;
use workflow::agent::{AgentEvent, AgentInfo};
use workflow::orchestrate_run::{reusable_agent, task_prompt, watch_step, WatchEvent};

fn info(id: u32, role: &str, busy: bool) -> AgentInfo {
    AgentInfo { id, role: role.to_string(), current_task: if busy { Some("work".to_string()) } else { None } }
}

#[test]
fn idle_agents_of_the_role_are_reused() {
    let agents = vec![info(1, "coder", true), info(2, "writer", false), info(3, "coder", false), info(4, "coder", false)];
    assert_eq!(reusable_agent(&agents, "coder", &[]), Some(3));
    assert_eq!(reusable_agent(&agents, "coder", &[3]), Some(4));
    assert_eq!(reusable_agent(&agents, "coder", &[3, 4]), None);
    assert_eq!(reusable_agent(&agents, "tester", &[]), None);
}

#[test]
fn prompts_carry_dependency_results() {
    assert_eq!(task_prompt("build", &[], &[]), "build");
    let deps = vec!["a".to_string(), "missing".to_string(), "b".to_string()];
    let results = vec![
        ("a".to_string(), "first".to_string()),
        ("b".to_string(), "second".to_string()),
        ("a".to_string(), "again".to_string()),
    ];
    assert_eq!(task_prompt("build", &deps, &results), "build\n\nDependency results:\n[a]\nagain\n\n[b]\nsecond");
    assert_eq!(task_prompt("build", &["x".to_string()], &results), "build\n\nDependency results:\n");
}

#[test]
fn task_output_is_gathered_until_the_turn_ends() {
    let mut out = String::new();
    assert_eq!(watch_step("t1", &mut out, WatchEvent::Event(AgentEvent::Text("hel".to_string()))), None);
    assert_eq!(watch_step("t1", &mut out, WatchEvent::Event(AgentEvent::Reasoning("hmm".to_string()))), None);
    assert_eq!(watch_step("t1", &mut out, WatchEvent::Event(AgentEvent::Text("lo".to_string()))), None);
    assert_eq!(watch_step("t1", &mut out, WatchEvent::Event(AgentEvent::TurnComplete)), Some(Ok("hello".to_string())));
    assert_eq!(
        watch_step("t1", &mut out, WatchEvent::Event(AgentEvent::Error("boom".to_string()))),
        Some(Err("task 't1' failed: boom".to_string()))
    );
    assert_eq!(
        watch_step("t1", &mut out, WatchEvent::Lagged(7)),
        Some(Err("task 't1' event stream lagged by 7 messages".to_string()))
    );
    assert_eq!(watch_step("t1", &mut out, WatchEvent::Closed), Some(Err("task 't1' agent stopped unexpectedly".to_string())));
}

#[test]
fn plan_agents_are_reused_once_then_created() {
    let agents = vec![info(1, "coder", false), info(2, "coder", true), info(3, "writer", false)];
    let roles: Vec<String> = ["coder", "coder", "writer", "writer"].iter().map(|s| s.to_string()).collect();
    let (ids, next) = assign_agents(&agents, &roles, 10);
    assert_eq!(ids, vec![1, 10, 3, 11]);
    assert_eq!(next, 12);
    let (ids, next) = assign_agents(&[], &["coder".to_string(), "coder".to_string()], u32::MAX);
    assert_eq!(ids, vec![u32::MAX, 0]);
    assert_eq!(next, 1);
}
