use workflow::agent_factory::{a2a_system_prompt_str, agent_setup};
use workflow::role::RolePool;

#[test]
fn requested_role_is_kept() {
    let roles = RolePool::default();
    let (name, preamble) = agent_setup(&roles, "executor");
    assert_eq!(name, "executor");
    assert_eq!(preamble, format!("I should execute the plan\n{}", a2a_system_prompt_str()));
}

#[test]
fn unknown_role_falls_back_to_default() {
    let roles = RolePool::default();
    let (name, preamble) = agent_setup(&roles, "designer");
    assert_eq!(name, "designer");
    assert!(preamble.starts_with("I should help user to plan\n"));
    let (name, _) = agent_setup(&roles, "");
    assert_eq!(name, "planner");
}

#[test]
fn protocol_prompt_names_the_envelope() {
    let p = a2a_system_prompt_str();
    assert!(p.starts_with("\nAgent-to-agent communication protocol:\n"));
    assert!(p.contains("<peer_message>"));
    assert!(p.ends_with("from `reply_to`.\n"));
}
