//! How a model client is chosen and configured: from a protocol and key,
//! from the environment, and the reasoning parameters each kind of client
//! takes. Reading the environment, probing for a local server and building
//! the client are the caller's part.
use vstd::prelude::*;
use crate::config::{protocol_of_id, ProviderProtocol};
use crate::text::str_eq;
use crate::types::ReasoningOption;

verus! {

/// The kinds of model client.
#[derive(Debug, Clone, Copy, PartialEq, Eq, Structural)]
pub enum ClientKind {
    OpenAi,
    Anthropic,
    Cohere,
    Gemini,
    Mistral,
    Ollama,
    Llamafile,
    Azure,
    Copilot,
}

/// The client kind that speaks a protocol; OpenAI-compatible services use
/// the OpenAI client.
pub open spec fn kind_of(p: ProviderProtocol) -> ClientKind {
    match p {
        ProviderProtocol::OpenAi | ProviderProtocol::OpenAiCompatible => ClientKind::OpenAi,
        ProviderProtocol::Anthropic => ClientKind::Anthropic,
        ProviderProtocol::Cohere => ClientKind::Cohere,
        ProviderProtocol::Gemini => ClientKind::Gemini,
        ProviderProtocol::Mistral => ClientKind::Mistral,
        ProviderProtocol::Ollama => ClientKind::Ollama,
        ProviderProtocol::Llamafile => ClientKind::Llamafile,
        ProviderProtocol::Azure => ClientKind::Azure,
        ProviderProtocol::Copilot => ClientKind::Copilot,
    }
}

pub fn client_kind(p: ProviderProtocol) -> (k: ClientKind)
    ensures
        k == kind_of(p),
{
    match p {
        ProviderProtocol::OpenAi | ProviderProtocol::OpenAiCompatible => ClientKind::OpenAi,
        ProviderProtocol::Anthropic => ClientKind::Anthropic,
        ProviderProtocol::Cohere => ClientKind::Cohere,
        ProviderProtocol::Gemini => ClientKind::Gemini,
        ProviderProtocol::Mistral => ClientKind::Mistral,
        ProviderProtocol::Ollama => ClientKind::Ollama,
        ProviderProtocol::Llamafile => ClientKind::Llamafile,
        ProviderProtocol::Azure => ClientKind::Azure,
        ProviderProtocol::Copilot => ClientKind::Copilot,
    }
}

/// How to build a client: its kind, the key it is given (none for a local
/// server, or where the client reads its own environment), the base URL
/// and, for Azure, the API version.
#[derive(Debug, Clone)]
pub struct ClientPlan {
    pub kind: ClientKind,
    pub api_key: Option<String>,
    pub base_url: Option<String>,
    pub api_version: Option<String>,
}

pub open spec fn opt_view(o: Option<String>) -> Option<Seq<char>> {
    match o {
        Some(s) => Some(s@),
        None => None,
    }
}

pub open spec fn opt_str_view(o: Option<&str>) -> Option<Seq<char>> {
    match o {
        Some(s) => Some(s@),
        None => None,
    }
}

pub open spec fn plan_view(p: ClientPlan) -> (ClientKind, Option<Seq<char>>, Option<Seq<char>>, Option<Seq<char>>) {
    (p.kind, opt_view(p.api_key), opt_view(p.base_url), opt_view(p.api_version))
}

/// The Azure API version used where none is set.
pub open spec fn default_azure_version() -> Seq<char> {
    "2024-10-21"@
}

/// The address of a local llamafile server.
pub open spec fn default_llamafile_url() -> Seq<char> {
    "http://localhost:8080"@
}

/// The plan for a protocol, key and optional base URL. Cohere, Gemini,
/// Mistral and Copilot take no base URL; Ollama and llamafile take no key;
/// llamafile defaults to a local server; Azure takes the URL as its
/// endpoint (empty where none is given) and the set API version or the
/// default one.
pub open spec fn protocol_plan(
    api_key: Seq<char>,
    base_url: Option<Seq<char>>,
    p: ProviderProtocol,
    azure_version: Option<Seq<char>>,
) -> (ClientKind, Option<Seq<char>>, Option<Seq<char>>, Option<Seq<char>>) {
    match p {
        ProviderProtocol::Anthropic | ProviderProtocol::OpenAi | ProviderProtocol::OpenAiCompatible => (
            kind_of(p),
            Some(api_key),
            base_url,
            None,
        ),
        ProviderProtocol::Cohere | ProviderProtocol::Gemini | ProviderProtocol::Mistral
        | ProviderProtocol::Copilot => (kind_of(p), Some(api_key), None, None),
        ProviderProtocol::Ollama => (ClientKind::Ollama, None, base_url, None),
        ProviderProtocol::Llamafile => (
            ClientKind::Llamafile,
            None,
            Some(
                match base_url {
                    Some(u) => u,
                    None => default_llamafile_url(),
                },
            ),
            None,
        ),
        ProviderProtocol::Azure => (
            ClientKind::Azure,
            Some(api_key),
            Some(
                match base_url {
                    Some(u) => u,
                    None => Seq::empty(),
                },
            ),
            Some(
                match azure_version {
                    Some(v) => v,
                    None => default_azure_version(),
                },
            ),
        ),
    }
}

fn owned(o: Option<&str>) -> (r: Option<String>)
    ensures
        opt_view(r) == opt_str_view(o),
{
    match o {
        Some(s) => Some(String::from_str(s)),
        None => None,
    }
}

/// The plan for a protocol; `azure_version` is the set Azure API version.
pub fn plan_from_protocol(
    api_key: &str,
    base_url: Option<&str>,
    protocol: ProviderProtocol,
    azure_version: Option<&str>,
) -> (c: ClientPlan)
    ensures
        plan_view(c) == protocol_plan(api_key@, opt_str_view(base_url), protocol, opt_str_view(azure_version)),
{
    let kind = client_kind(protocol);
    match protocol {
        ProviderProtocol::Anthropic | ProviderProtocol::OpenAi | ProviderProtocol::OpenAiCompatible => ClientPlan {
            kind,
            api_key: Some(String::from_str(api_key)),
            base_url: owned(base_url),
            api_version: None,
        },
        ProviderProtocol::Cohere | ProviderProtocol::Gemini | ProviderProtocol::Mistral
        | ProviderProtocol::Copilot => ClientPlan {
            kind,
            api_key: Some(String::from_str(api_key)),
            base_url: None,
            api_version: None,
        },
        ProviderProtocol::Ollama => ClientPlan { kind, api_key: None, base_url: owned(base_url), api_version: None },
        ProviderProtocol::Llamafile => {
            let url = match base_url {
                Some(u) => String::from_str(u),
                None => String::from_str("http://localhost:8080"),
            };
            ClientPlan { kind, api_key: None, base_url: Some(url), api_version: None }
        },
        ProviderProtocol::Azure => {
            let endpoint = match base_url {
                Some(u) => String::from_str(u),
                None => String::new(),
            };
            let version = match azure_version {
                Some(v) => String::from_str(v),
                None => String::from_str("2024-10-21"),
            };
            ClientPlan {
                kind,
                api_key: Some(String::from_str(api_key)),
                base_url: Some(endpoint),
                api_version: Some(version),
            }
        },
    }
}

/// The plan for a provider id, by the protocol the id maps to.
pub fn plan_from_key(api_key: &str, base_url: Option<&str>, provider_id: &str, azure_version: Option<&str>) -> (c:
    ClientPlan)
    ensures
        plan_view(c) == protocol_plan(
            api_key@,
            opt_str_view(base_url),
            protocol_of_id(provider_id@),
            opt_str_view(azure_version),
        ),
{
    plan_from_protocol(api_key, base_url, ProviderProtocol::from_id(provider_id), azure_version)
}

/// The environment variables the choice of provider reads.
#[derive(Debug, Clone)]
pub struct ProviderEnv {
    pub openai_key: Option<String>,
    pub openai_base_url: Option<String>,
    pub anthropic_key: Option<String>,
    pub anthropic_base_url: Option<String>,
    pub cohere_key: Option<String>,
    pub gemini_key: Option<String>,
    pub mistral_key: Option<String>,
    pub ollama_base_url: Option<String>,
    pub azure_key: Option<String>,
    pub azure_endpoint: Option<String>,
    pub azure_api_version: Option<String>,
    /// `GITHUB_TOKEN` or `GITHUB_COPILOT_API_KEY` is set.
    pub github_token_set: bool,
}

/// What the choice from the environment comes to.
#[derive(Debug, Clone)]
pub enum EnvChoice {
    /// Build this client.
    Build(ClientPlan),
    /// Find out whether a local Ollama server answers, then choose again.
    ProbeOllama,
    /// No client can be built.
    Fail(String),
}

pub open spec fn no_key_text() -> Seq<char> {
    "No API key found. Set OPENAI_API_KEY, ANTHROPIC_API_KEY, COHERE_API_KEY, GEMINI_API_KEY, MISTRAL_API_KEY, AZURE_API_KEY, or GITHUB_TOKEN"@
}

pub open spec fn azure_endpoint_text() -> Seq<char> {
    "AZURE_ENDPOINT must be set with AZURE_API_KEY"@
}

pub open spec fn choice_view(c: EnvChoice) -> Result<(ClientKind, Option<Seq<char>>, Option<Seq<char>>, Option<Seq<char>>), Option<Seq<char>>> {
    match c {
        EnvChoice::Build(p) => Ok(plan_view(p)),
        EnvChoice::ProbeOllama => Err(None),
        EnvChoice::Fail(m) => Err(Some(m@)),
    }
}

/// The first provider the environment names, in the order OpenAI,
/// Anthropic, Cohere, Gemini, Mistral, Ollama (a set base URL, or a local
/// server that answers: `ollama_running`, where it was probed), Azure (which
/// needs an endpoint too) and Copilot (which reads its own environment).
pub open spec fn env_plan(e: ProviderEnv, ollama_running: Option<bool>) -> Result<(ClientKind, Option<Seq<char>>, Option<Seq<char>>, Option<Seq<char>>), Option<Seq<char>>> {
    if e.openai_key is Some {
        Ok((ClientKind::OpenAi, opt_view(e.openai_key), opt_view(e.openai_base_url), None))
    } else if e.anthropic_key is Some {
        Ok((ClientKind::Anthropic, opt_view(e.anthropic_key), opt_view(e.anthropic_base_url), None))
    } else if e.cohere_key is Some {
        Ok((ClientKind::Cohere, opt_view(e.cohere_key), None, None))
    } else if e.gemini_key is Some {
        Ok((ClientKind::Gemini, opt_view(e.gemini_key), None, None))
    } else if e.mistral_key is Some {
        Ok((ClientKind::Mistral, opt_view(e.mistral_key), None, None))
    } else if e.ollama_base_url is Some || ollama_running == Some(true) {
        Ok((ClientKind::Ollama, None, opt_view(e.ollama_base_url), None))
    } else if ollama_running is None {
        Err(None)
    } else if e.azure_key is Some {
        match e.azure_endpoint {
            Some(ep) => Ok(
                (
                    ClientKind::Azure,
                    opt_view(e.azure_key),
                    Some(ep@),
                    Some(
                        match e.azure_api_version {
                            Some(v) => v@,
                            None => default_azure_version(),
                        },
                    ),
                ),
            ),
            None => Err(Some(azure_endpoint_text())),
        }
    } else if e.github_token_set {
        Ok((ClientKind::Copilot, None, None, None))
    } else {
        Err(Some(no_key_text()))
    }
}

fn copy(o: &Option<String>) -> (r: Option<String>)
    ensures
        opt_view(r) == opt_view(*o),
{
    match o {
        Some(s) => Some(s.clone()),
        None => None,
    }
}

/// The client the environment asks for. Where the choice turns on whether
/// a local Ollama server answers and `ollama_running` is `None`, the caller
/// is asked to probe and choose again.
pub fn plan_from_env(env: &ProviderEnv, ollama_running: Option<bool>) -> (c: EnvChoice)
    ensures
        choice_view(c) == env_plan(*env, ollama_running),
{
    let plan = |kind: ClientKind, api_key: Option<String>, base_url: Option<String>, api_version: Option<String>| -> (p: ClientPlan)
        ensures
            p.kind == kind,
            p.api_key == api_key,
            p.base_url == base_url,
            p.api_version == api_version,
        { ClientPlan { kind, api_key, base_url, api_version } };
    if env.openai_key.is_some() {
        EnvChoice::Build(plan(ClientKind::OpenAi, copy(&env.openai_key), copy(&env.openai_base_url), None))
    } else if env.anthropic_key.is_some() {
        EnvChoice::Build(plan(ClientKind::Anthropic, copy(&env.anthropic_key), copy(&env.anthropic_base_url), None))
    } else if env.cohere_key.is_some() {
        EnvChoice::Build(plan(ClientKind::Cohere, copy(&env.cohere_key), None, None))
    } else if env.gemini_key.is_some() {
        EnvChoice::Build(plan(ClientKind::Gemini, copy(&env.gemini_key), None, None))
    } else if env.mistral_key.is_some() {
        EnvChoice::Build(plan(ClientKind::Mistral, copy(&env.mistral_key), None, None))
    } else if env.ollama_base_url.is_some() || ollama_running == Some(true) {
        EnvChoice::Build(plan(ClientKind::Ollama, None, copy(&env.ollama_base_url), None))
    } else if ollama_running.is_none() {
        EnvChoice::ProbeOllama
    } else if env.azure_key.is_some() {
        match &env.azure_endpoint {
            Some(ep) => {
                let version = match &env.azure_api_version {
                    Some(v) => v.clone(),
                    None => String::from_str("2024-10-21"),
                };
                EnvChoice::Build(plan(ClientKind::Azure, copy(&env.azure_key), Some(ep.clone()), Some(version)))
            },
            None => EnvChoice::Fail(String::from_str("AZURE_ENDPOINT must be set with AZURE_API_KEY")),
        }
    } else if env.github_token_set {
        EnvChoice::Build(plan(ClientKind::Copilot, None, None, None))
    } else {
        EnvChoice::Fail(
            String::from_str(
                "No API key found. Set OPENAI_API_KEY, ANTHROPIC_API_KEY, COHERE_API_KEY, GEMINI_API_KEY, MISTRAL_API_KEY, AZURE_API_KEY, or GITHUB_TOKEN",
            ),
        )
    }
}

/// The extra request parameters for reasoning.
#[derive(Debug, Clone)]
pub enum ReasoningParams {
    /// `{"reasoning_effort": effort}`.
    Flat { reasoning_effort: String },
    /// `{"thinking": {"type": "enabled", "effort"?: .., "budget_tokens"?: ..}}`.
    Thinking { effort: Option<String>, budget_tokens: Option<u32> },
}

/// The thinking budget for an effort level.
pub open spec fn budget_for(effort: Seq<char>) -> u32 {
    if effort == "low"@ {
        8192
    } else if effort == "high"@ {
        32768
    } else {
        16384
    }
}

/// Some option lists the effort levels and allows `effort` (an empty list
/// allows any).
pub open spec fn effort_allowed(options: Seq<ReasoningOption>, effort: Seq<char>) -> bool {
    exists|i: int|
        0 <= i < options.len() && (#[trigger] options[i] matches ReasoningOption::Effort { values } && (values@.len()
            == 0 || exists|j: int| 0 <= j < values@.len() && values@[j]@ == effort))
}

/// Some option sets a token budget.
pub open spec fn has_budget_option(options: Seq<ReasoningOption>) -> bool {
    exists|i: int| 0 <= i < options.len() && #[trigger] options[i] is BudgetTokens
}

/// OpenAI, Azure and Copilot clients take a flat effort; an Anthropic
/// client takes a thinking block with the effort where an option allows it
/// and a budget where an option sets one; other clients take none.
pub open spec fn reasoning_of(kind: ClientKind, effort: Seq<char>, options: Seq<ReasoningOption>) -> Option<(bool, Seq<char>, Option<Seq<char>>, Option<u32>)> {
    match kind {
        ClientKind::OpenAi | ClientKind::Azure | ClientKind::Copilot => Some((true, effort, None, None)),
        ClientKind::Anthropic => Some(
            (
                false,
                Seq::empty(),
                if effort_allowed(options, effort) {
                    Some(effort)
                } else {
                    None
                },
                if has_budget_option(options) {
                    Some(budget_for(effort))
                } else {
                    None
                },
            ),
        ),
        _ => None,
    }
}

pub open spec fn params_view(p: Option<ReasoningParams>) -> Option<(bool, Seq<char>, Option<Seq<char>>, Option<u32>)> {
    match p {
        Some(ReasoningParams::Flat { reasoning_effort }) => Some((true, reasoning_effort@, None, None)),
        Some(ReasoningParams::Thinking { effort, budget_tokens }) => Some((false, Seq::empty(), opt_view(effort), budget_tokens)),
        None => None,
    }
}

fn lists(values: &Vec<String>, effort: &str) -> (b: bool)
    ensures
        b == exists|j: int| 0 <= j < values@.len() && values@[j]@ == effort@,
{
    let mut j: usize = 0;
    while j < values.len()
        invariant
            j <= values@.len(),
            forall|k: int| 0 <= k < j ==> values@[k]@ != effort@,
        decreases values@.len() - j,
    {
        if str_eq(values[j].as_str(), effort) {
            return true;
        }
        j += 1;
    }
    false
}

/// The reasoning parameters for a client kind, an effort level and the
/// model's reasoning options.
pub fn reasoning_params(kind: ClientKind, effort: &str, options: &[ReasoningOption]) -> (r: Option<ReasoningParams>)
    ensures
        params_view(r) == reasoning_of(kind, effort@, options@),
{
    match kind {
        ClientKind::OpenAi | ClientKind::Azure | ClientKind::Copilot => Some(
            ReasoningParams::Flat { reasoning_effort: String::from_str(effort) },
        ),
        ClientKind::Anthropic => {
            let mut allowed = false;
            let mut budget = false;
            let mut i: usize = 0;
            while i < options.len()
                invariant
                    i <= options@.len(),
                    allowed == exists|k: int|
                        0 <= k < i && (#[trigger] options@[k] matches ReasoningOption::Effort { values } && (
                        values@.len() == 0 || exists|j: int| 0 <= j < values@.len() && values@[j]@ == effort@)),
                    budget == exists|k: int| 0 <= k < i && #[trigger] options@[k] is BudgetTokens,
                decreases options@.len() - i,
            {
                match &options[i] {
                    ReasoningOption::Effort { values } => {
                        if values.len() == 0 || lists(values, effort) {
                            allowed = true;
                        }
                    },
                    ReasoningOption::BudgetTokens { .. } => {
                        budget = true;
                    },
                    _ => {},
                }
                i += 1;
            }
            let effort_field = if allowed {
                Some(String::from_str(effort))
            } else {
                None
            };
            let budget_tokens = if budget {
                Some(
                    if str_eq(effort, "low") {
                        8192u32
                    } else if str_eq(effort, "high") {
                        32768u32
                    } else {
                        16384u32
                    },
                )
            } else {
                None
            };
            Some(ReasoningParams::Thinking { effort: effort_field, budget_tokens })
        },
        _ => None,
    }
}

} // verus!
