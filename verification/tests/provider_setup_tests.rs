use workflow::config::ProviderProtocol;
use workflow::provider_setup::{
    plan_from_env, plan_from_key, plan_from_protocol, reasoning_params, ClientKind, EnvChoice, ProviderEnv,
    ReasoningParams,
};
use workflow::types::ReasoningOption;

fn empty_env() -> ProviderEnv {
    ProviderEnv {
        openai_key: None,
        openai_base_url: None,
        anthropic_key: None,
        anthropic_base_url: None,
        cohere_key: None,
        gemini_key: None,
        mistral_key: None,
        ollama_base_url: None,
        azure_key: None,
        azure_endpoint: None,
        azure_api_version: None,
        github_token_set: false,
    }
}

#[test]
fn protocol_plans() {
    let p = plan_from_protocol("k", Some("https://x"), ProviderProtocol::OpenAiCompatible, None);
    assert_eq!(p.kind, ClientKind::OpenAi);
    assert_eq!((p.api_key.as_deref(), p.base_url.as_deref()), (Some("k"), Some("https://x")));
    let p = plan_from_protocol("k", Some("https://x"), ProviderProtocol::Gemini, None);
    assert_eq!((p.kind, p.base_url), (ClientKind::Gemini, None));
    let p = plan_from_protocol("k", None, ProviderProtocol::Llamafile, None);
    assert_eq!((p.api_key, p.base_url.as_deref()), (None, Some("http://localhost:8080")));
    let p = plan_from_protocol("k", None, ProviderProtocol::Azure, None);
    assert_eq!((p.base_url.as_deref(), p.api_version.as_deref()), (Some(""), Some("2024-10-21")));
    let p = plan_from_protocol("k", Some("https://az"), ProviderProtocol::Azure, Some("2025-01-01"));
    assert_eq!(p.api_version.as_deref(), Some("2025-01-01"));
    let p = plan_from_key("k", None, "anthropic", None);
    assert_eq!(p.kind, ClientKind::Anthropic);
    let p = plan_from_key("k", None, "some-gateway", None);
    assert_eq!(p.kind, ClientKind::OpenAi);
}

#[test]
fn environment_order() {
    let mut e = empty_env();
    e.anthropic_key = Some("a".to_string());
    e.openai_key = Some("o".to_string());
    match plan_from_env(&e, None) {
        EnvChoice::Build(p) => assert_eq!((p.kind, p.api_key.as_deref()), (ClientKind::OpenAi, Some("o"))),
        other => panic!("unexpected {:?}", other),
    }
    let mut e = empty_env();
    e.azure_key = Some("z".to_string());
    assert!(matches!(plan_from_env(&e, None), EnvChoice::ProbeOllama));
    match plan_from_env(&e, Some(false)) {
        EnvChoice::Fail(m) => assert_eq!(m, "AZURE_ENDPOINT must be set with AZURE_API_KEY"),
        other => panic!("unexpected {:?}", other),
    }
    assert!(matches!(plan_from_env(&e, Some(true)), EnvChoice::Build(ref p) if p.kind == ClientKind::Ollama));
    e.azure_endpoint = Some("https://az".to_string());
    match plan_from_env(&e, Some(false)) {
        EnvChoice::Build(p) => {
            assert_eq!(p.kind, ClientKind::Azure);
            assert_eq!(p.api_version.as_deref(), Some("2024-10-21"));
        }
        other => panic!("unexpected {:?}", other),
    }
    let mut e = empty_env();
    e.github_token_set = true;
    assert!(matches!(plan_from_env(&e, Some(false)), EnvChoice::Build(ref p) if p.kind == ClientKind::Copilot));
    match plan_from_env(&empty_env(), Some(false)) {
        EnvChoice::Fail(m) => assert!(m.starts_with("No API key found.")),
        other => panic!("unexpected {:?}", other),
    }
    let mut e = empty_env();
    e.ollama_base_url = Some("http://ollama:11434".to_string());
    assert!(matches!(plan_from_env(&e, None), EnvChoice::Build(ref p) if p.kind == ClientKind::Ollama));
}

#[test]
fn reasoning_parameters_by_client() {
    match reasoning_params(ClientKind::OpenAi, "high", &[]) {
        Some(ReasoningParams::Flat { reasoning_effort }) => assert_eq!(reasoning_effort, "high"),
        other => panic!("unexpected {:?}", other),
    }
    let opts = vec![
        ReasoningOption::Effort { values: vec!["low".to_string(), "high".to_string()] },
        ReasoningOption::BudgetTokens { values: vec![] },
    ];
    match reasoning_params(ClientKind::Anthropic, "high", &opts) {
        Some(ReasoningParams::Thinking { effort, budget_tokens }) => {
            assert_eq!(effort.as_deref(), Some("high"));
            assert_eq!(budget_tokens, Some(32768));
        }
        other => panic!("unexpected {:?}", other),
    }
    match reasoning_params(ClientKind::Anthropic, "medium", &opts) {
        Some(ReasoningParams::Thinking { effort, budget_tokens }) => {
            assert_eq!(effort, None);
            assert_eq!(budget_tokens, Some(16384));
        }
        other => panic!("unexpected {:?}", other),
    }
    match reasoning_params(ClientKind::Anthropic, "low", &[ReasoningOption::Effort { values: vec![] }]) {
        Some(ReasoningParams::Thinking { effort, budget_tokens }) => {
            assert_eq!(effort.as_deref(), Some("low"));
            assert_eq!(budget_tokens, None);
        }
        other => panic!("unexpected {:?}", other),
    }
    assert!(reasoning_params(ClientKind::Gemini, "high", &opts).is_none());
}
