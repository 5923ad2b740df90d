use workflow::text::trim_range;
use workflow::config::{ProjectConfig, ProviderProtocol};
use workflow::ui::{
    catalogue_base_url, configured_runtime, session_name_for, add_saved_role, default_roles, entry_from_provider, is_generic_session_name, merge_roles, message_session_name,
    remove_saved_role, ModelSummary, ProviderSummary, SavedRole,
};

fn saved(name: &str, definition: &str) -> SavedRole {
    SavedRole { name: name.to_string(), definition: definition.to_string() }
}

#[test]
fn default_roles_are_planner_and_executor() {
    let roles = default_roles();
    assert_eq!(roles.len(), 2);
    assert_eq!(roles[0].id, "planner");
    assert_eq!(roles[0].definition, "I should help user to plan");
    assert_eq!(roles[1].name, "executor");
    assert_eq!(roles[1].definition, "I should execute the plan");
}

#[test]
fn merge_roles_skips_taken_names() {
    let merged = merge_roles(
        default_roles(),
        vec![saved("planner", "other"), saved("coder", "writes code"), saved("coder", "again")],
    );
    let names: Vec<&str> = merged.iter().map(|r| r.name.as_str()).collect();
    assert_eq!(names, vec!["planner", "executor", "coder"]);
    assert_eq!(merged[0].definition, "I should help user to plan");
    assert_eq!(merged[2].id, "coder");
    assert_eq!(merged[2].definition, "writes code");
}

#[test]
fn saved_roles_add_once_and_remove_all() {
    let s = add_saved_role(vec![], "coder".to_string(), "writes".to_string());
    assert_eq!(s.len(), 1);
    let s = add_saved_role(s, "coder".to_string(), "ignored".to_string());
    assert_eq!(s.len(), 1);
    assert_eq!(s[0].definition, "writes");
    let s = add_saved_role(s, "tester".to_string(), "tests".to_string());
    let s = remove_saved_role(s, "coder");
    assert_eq!(s.len(), 1);
    assert_eq!(s[0].name, "tester");
}

#[test]
fn session_name_is_cleaned_and_cut() {
    assert_eq!(message_session_name("  fix the\u{7} build \n"), "fix the build");
    let long = "a".repeat(70);
    let name = message_session_name(&long);
    assert_eq!(name, format!("{}\u{2026}", "a".repeat(55)));
    assert_eq!(message_session_name(&"b".repeat(55)), "b".repeat(55));
    assert_eq!(message_session_name(" \t "), "");
}

#[test]
fn generic_session_names() {
    assert!(is_generic_session_name("New Session"));
    assert!(is_generic_session_name("Default"));
    assert!(is_generic_session_name("Session 3"));
    assert!(!is_generic_session_name("Session"));
    assert!(!is_generic_session_name("Refactor parser"));
}

#[test]
fn provider_entry_lists_models_in_order() {
    let p = ProviderSummary {
        id: "acme".to_string(),
        name: "Acme".to_string(),
        api: Some("https://api.acme.test".to_string()),
        models: vec![
            ModelSummary { id: "m1".to_string(), name: "One".to_string(), tool_call: Some(true) },
            ModelSummary { id: "m2".to_string(), name: "Two".to_string(), tool_call: None },
            ModelSummary { id: "m3".to_string(), name: "Three".to_string(), tool_call: Some(false) },
        ],
    };
    let e = entry_from_provider(&p);
    assert_eq!(e.id, "acme");
    assert_eq!(e.api_url.as_deref(), Some("https://api.acme.test"));
    let flags: Vec<bool> = e.models.iter().map(|m| m.supports_tools).collect();
    assert_eq!(flags, vec![true, false, false]);
    assert_eq!(e.models[1].name, "Two");
}

#[test]
fn base_url_comes_from_first_catalogue_entry() {
    let entry = |id: &str, api: Option<&str>| ProviderSummary {
        id: id.to_string(),
        name: id.to_string(),
        api: api.map(|a| a.to_string()),
        models: vec![],
    };
    let cat = vec![entry("a", None), entry("b", Some("https://b1")), entry("b", Some("https://b2"))];
    assert_eq!(catalogue_base_url(&cat, "b"), "https://b1");
    assert_eq!(catalogue_base_url(&cat, "a"), "");
    assert_eq!(catalogue_base_url(&cat, "zzz"), "");
}

#[test]
fn configured_runtime_uses_choice() {
    let c = configured_runtime("mistral".into(), "https://x".into(), "k".into(), "large-model".into());
    assert_eq!(c.provider.id, "mistral");
    assert_eq!(c.provider.protocol, ProviderProtocol::Mistral);
    assert_eq!(c.provider.models, vec!["large-model".to_string()]);
    assert_eq!(c.provider.name, "");
    assert_eq!(c.provider.base_url, "https://x");
    assert_eq!(c.provider.timeout_secs, 60);
    assert_eq!(c.model, "large-model");
    assert_eq!(c.agent_capacity, 100);
}

#[test]
fn session_named_after_project() {
    assert_eq!(session_name_for(&None), "Default");
    assert_eq!(session_name_for(&Some(ProjectConfig::new("/home/u/proj".into()))), "proj");
}

#[test]
fn unicode_controls_and_whitespace() {
    // U+0085 is both a control and whitespace; U+009F is a control; U+3000 is whitespace
    assert_eq!(message_session_name("\u{3000}\u{9f}plan\u{85}\u{2003}"), "plan");
    let cs: Vec<char> = "\u{a0}\u{1680}x y\u{205f}\u{2029}".chars().collect();
    assert_eq!(trim_range(&cs, 0, cs.len()), vec!['x', ' ', 'y']);
    // U+200B is not whitespace
    let cs: Vec<char> = "\u{200b}x".chars().collect();
    assert_eq!(trim_range(&cs, 0, cs.len()), vec!['\u{200b}', 'x']);
}
