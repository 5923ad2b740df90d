use workflow::config::{
    decrypt_api_key, merge_configs, seal_api_key, ConfigError, ConfigSource, DefaultConfigSource,
    ProjectConfig, ProviderConfig, ProviderProtocol,
};

struct SingleSource {
    configs: Vec<ProviderConfig>,
}

impl ConfigSource for SingleSource {
    fn name(&self) -> &'static str {
        "single"
    }
    fn load(&self) -> Result<Vec<ProviderConfig>, ConfigError> {
        Ok(self.configs.clone())
    }
}

struct FailingSource;

impl ConfigSource for FailingSource {
    fn name(&self) -> &'static str {
        "failing"
    }
    fn load(&self) -> Result<Vec<ProviderConfig>, ConfigError> {
        Err(ConfigError("unreadable".to_string()))
    }
}

#[test]
fn test_provider_config_default() {
    let cfg = ProviderConfig::default();
    assert_eq!(cfg.timeout_secs, 60);
    assert_eq!(cfg.max_retries, 3);
}

#[test]
fn test_default_source_providers() {
    let source = DefaultConfigSource;
    let configs = source.load().expect("default config source should load");
    let openai = configs.iter().find(|c| c.id == "openai").expect("defaults should include openai");
    assert!(openai.base_url.contains("openai.com"));
}

#[test]
fn test_default_config_source() {
    let source = DefaultConfigSource;
    let configs = source.load().expect("default configs should load");
    assert!(!configs.is_empty(), "should have at least one default provider");

    let openai = configs.iter().find(|c| c.id == "openai").expect("defaults should include openai");
    assert_eq!(openai.name, "OpenAI");
    assert!(openai.base_url.contains("api.openai.com"));
    assert!(openai.requires_api_key());
    assert!(openai.supports_tools());

    let ollama = configs.iter().find(|c| c.id == "ollama").expect("defaults should include ollama");
    assert_eq!(ollama.name, "Ollama");
    assert!(!ollama.requires_api_key());
}

#[test]
fn test_merge_configs_deduplicates_by_id() {
    let source_a = SingleSource {
        configs: vec![ProviderConfig {
            id: "custom".into(),
            name: "Custom A".into(),
            protocol: ProviderProtocol::OpenAiCompatible,
            base_url: "https://a.example.com".into(),
            ..Default::default()
        }],
    };
    let source_b = SingleSource {
        configs: vec![ProviderConfig {
            id: "custom".into(),
            name: "Custom B".into(),
            protocol: ProviderProtocol::OpenAiCompatible,
            base_url: "https://b.example.com".into(),
            ..Default::default()
        }],
    };
    let merged = merge_configs(&[&source_a, &source_b]).expect("merge should succeed");
    let custom = merged.iter().find(|c| c.id == "custom").expect("merged configs should include custom");
    assert_eq!(custom.name, "Custom B");
    assert_eq!(custom.base_url, "https://b.example.com");
    assert_eq!(merged.len(), 1);
}

#[test]
fn test_merge_defaults_with_empty_file() {
    let defaults = DefaultConfigSource;
    let empty = SingleSource { configs: vec![] };
    let merged = merge_configs(&[&defaults, &empty]).expect("merge with empty should succeed");
    assert_eq!(merged.len(), 3);
}

#[test]
fn test_provider_defaults() {
    let cfg = ProviderConfig::default();
    assert_eq!(cfg.timeout_secs, 60);
    assert_eq!(cfg.max_retries, 3);
    assert_eq!(cfg.max_connections, 5);
    assert!(cfg.models.is_empty());
}

#[test]
fn merge_keeps_first_position_and_appends_new_ids() {
    let a = SingleSource {
        configs: vec![
            ProviderConfig { id: "x".into(), name: "X1".into(), ..Default::default() },
            ProviderConfig { id: "y".into(), name: "Y1".into(), ..Default::default() },
        ],
    };
    let b = SingleSource {
        configs: vec![
            ProviderConfig { id: "z".into(), name: "Z".into(), ..Default::default() },
            ProviderConfig { id: "x".into(), name: "X2".into(), ..Default::default() },
        ],
    };
    let merged = merge_configs(&[&a, &b]).unwrap();
    let names: Vec<&str> = merged.iter().map(|c| c.name.as_str()).collect();
    assert_eq!(names, vec!["X2", "Y1", "Z"]);
}

#[test]
fn merge_stops_at_failing_source() {
    let a = SingleSource { configs: vec![] };
    let err = merge_configs(&[&a, &FailingSource]).unwrap_err();
    assert_eq!(err.0, "unreadable");
}

#[test]
fn test_protocol_requires_api_key() {
    assert!(ProviderProtocol::OpenAi.requires_api_key());
    assert!(ProviderProtocol::Anthropic.requires_api_key());
    assert!(!ProviderProtocol::Ollama.requires_api_key());
    assert!(!ProviderProtocol::Llamafile.requires_api_key());
}

#[test]
fn test_protocol_supports_embeddings() {
    assert!(ProviderProtocol::OpenAi.supports_embeddings());
    assert!(ProviderProtocol::OpenAiCompatible.supports_embeddings());
    assert!(ProviderProtocol::Cohere.supports_embeddings());
    assert!(ProviderProtocol::Gemini.supports_embeddings());
    assert!(ProviderProtocol::Mistral.supports_embeddings());
    assert!(!ProviderProtocol::Anthropic.supports_embeddings());
    assert!(!ProviderProtocol::Ollama.supports_embeddings());
}

#[test]
fn test_protocol_label() {
    assert_eq!(ProviderProtocol::OpenAi.label(), "OpenAI");
    assert_eq!(ProviderProtocol::OpenAiCompatible.label(), "OpenAI Compatible");
    assert_eq!(ProviderProtocol::Anthropic.label(), "Anthropic");
    assert_eq!(ProviderProtocol::Ollama.label(), "Ollama");
}

#[test]
fn test_protocol_from_id() {
    assert_eq!(ProviderProtocol::from_id("openai"), ProviderProtocol::OpenAi);
    assert_eq!(ProviderProtocol::from_id("anthropic"), ProviderProtocol::Anthropic);
    assert_eq!(ProviderProtocol::from_id("cohere"), ProviderProtocol::Cohere);
    assert_eq!(ProviderProtocol::from_id("gemini"), ProviderProtocol::Gemini);
    assert_eq!(ProviderProtocol::from_id("google"), ProviderProtocol::Gemini);
    assert_eq!(ProviderProtocol::from_id("mistral"), ProviderProtocol::Mistral);
    assert_eq!(ProviderProtocol::from_id("ollama"), ProviderProtocol::Ollama);
    assert_eq!(ProviderProtocol::from_id("llamafile"), ProviderProtocol::Llamafile);
    assert_eq!(ProviderProtocol::from_id("azure"), ProviderProtocol::Azure);
    assert_eq!(ProviderProtocol::from_id("github-copilot"), ProviderProtocol::Copilot);
    assert_eq!(ProviderProtocol::from_id("custom-myapi"), ProviderProtocol::OpenAiCompatible);
}

#[test]
fn test_unknown_provider_falls_back_to_openai_compatible() {
    assert_eq!(ProviderProtocol::from_id("some-new-provider"), ProviderProtocol::OpenAiCompatible);
}

#[test]
fn project_config_names() {
    let p = ProjectConfig::new("/home/me/projects/demo".to_string());
    assert_eq!(p.name, "demo");
    assert_eq!(p.name(), "demo");
    let q = ProjectConfig { path: "/srv/app/".to_string(), name: String::new() };
    assert_eq!(q.name(), "app");
    let r = ProjectConfig { path: "/".to_string(), name: String::new() };
    assert_eq!(r.name(), "/");
    let s = ProjectConfig { path: "/x".to_string(), name: "Named".to_string() };
    assert_eq!(s.name(), "Named");
}

#[test]
fn api_key_round_trip() {
    let key = [7u8; 32];
    let nonce = [9u8; 12];
    let sealed = seal_api_key(&key, &nonce, "sk-secret-key").unwrap();
    assert_ne!(sealed, "sk-secret-key");
    assert_eq!(decrypt_api_key(&key, &sealed).unwrap(), "sk-secret-key");
}

#[test]
fn api_key_wrong_key_fails() {
    let sealed = seal_api_key(&[1u8; 32], &[2u8; 12], "abc").unwrap();
    assert_eq!(decrypt_api_key(&[3u8; 32], &sealed).unwrap_err(), "decryption failed: aead::Error");
}

#[test]
fn api_key_bad_inputs() {
    let key = [1u8; 32];
    assert!(decrypt_api_key(&key, "!!!").unwrap_err().starts_with("base64 decode failed: "));
    assert_eq!(decrypt_api_key(&key, "AAAA").unwrap_err(), "invalid encrypted data");
}

#[test]
fn api_key_random_nonce_round_trip() {
    let key = [5u8; 32];
    let sealed = workflow::config::encrypt_api_key(&key, "another key").unwrap();
    assert_eq!(decrypt_api_key(&key, &sealed).unwrap(), "another key");
}

#[test]
fn default_source_name_and_timeouts() {
    let source = DefaultConfigSource;
    assert_eq!(source.name(), "defaults");
    let configs = source.load().expect("defaults load");
    assert_eq!(configs.len(), 3);
    for c in &configs {
        assert_eq!(c.timeout().as_secs(), c.timeout_secs);
        assert_eq!(c.timeout().subsec_nanos(), 0);
        assert_eq!(c.timeout(), std::time::Duration::from_secs(c.timeout_secs));
    }
}

#[test]
fn merging_no_sources_gives_nothing() {
    let merged = merge_configs(&[]).expect("nothing to load");
    assert!(merged.is_empty());
}
