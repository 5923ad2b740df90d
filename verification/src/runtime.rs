//! Runtime-level records: the provider and model a runtime starts with,
//! role summaries, the conversation transcript and session metadata.
use vstd::prelude::*;
use crate::agent::{AgentEvent, AgentId, AgentInfo};
use crate::command::starts_with_chars;
use crate::role::Role;
use crate::text::chars_of;
use crate::config::{merge_configs, merge_lists, protocol_needs_key, ConfigSource, ProviderConfig, ProviderProtocol};

verus! {

/// How many agents a runtime holds unless told otherwise.
pub const DEFAULT_AGENT_CAPACITY: usize = 100;

/// The provider, model and agent capacity a runtime starts with.
#[derive(Debug, Clone)]
pub struct RuntimeConfig {
    pub provider: ProviderConfig,
    pub model: String,
    pub agent_capacity: usize,
}

/// The built-in provider when no configured one is usable.
pub open spec fn is_default_config(c: RuntimeConfig, api_key: Seq<char>) -> bool {
    &&& c.provider.id@ == "opencode"@
    &&& c.provider.name@ == "OpenCode AI"@
    &&& c.provider.protocol == ProviderProtocol::OpenAiCompatible
    &&& c.provider.base_url@ == "https://opencode.ai/zen/v1"@
    &&& c.provider.api_key@ == api_key
    &&& c.provider.models@.len() == 1 && c.provider.models@[0]@ == "big-pickle"@
    &&& c.provider.timeout_secs == 60 && c.provider.max_retries == 3 && c.provider.max_connections == 5
    &&& c.model@ == "big-pickle"@
    &&& c.agent_capacity == DEFAULT_AGENT_CAPACITY
}

/// A provider that needs a key and has one.
pub open spec fn keyed(p: ProviderConfig) -> bool {
    protocol_needs_key(p.protocol) && p.api_key@.len() > 0
}

/// The first keyed provider is at `i`.
pub open spec fn first_keyed(ps: Seq<ProviderConfig>, i: int) -> bool {
    0 <= i < ps.len() && keyed(ps[i]) && forall|k: int| 0 <= k < i ==> !keyed(ps[k])
}

/// The provider a runtime uses out of the merged list: the first keyed
/// one, else the first one.
pub open spec fn chosen_provider(ps: Seq<ProviderConfig>) -> Option<int> {
    if exists|i: int| first_keyed(ps, i) {
        Some(choose|i: int| first_keyed(ps, i))
    } else if ps.len() > 0 {
        Some(0)
    } else {
        None
    }
}

/// `c` runs on provider `p`: its first model (or the default model, which
/// is then also listed), all else as configured.
pub open spec fn runs_on(c: RuntimeConfig, p: ProviderConfig) -> bool {
    &&& c.provider.id == p.id && c.provider.name == p.name && c.provider.protocol == p.protocol
    &&& c.provider.base_url == p.base_url && c.provider.api_key == p.api_key
    &&& c.provider.timeout_secs == p.timeout_secs && c.provider.max_retries == p.max_retries
    &&& c.provider.max_connections == p.max_connections
    &&& if p.models@.len() > 0 {
        c.provider.models@ == p.models@ && c.model@ == p.models@[0]@
    } else {
        c.provider.models@.len() == 1 && c.provider.models@[0]@ == "big-pickle"@ && c.model@ == "big-pickle"@
    }
    &&& c.agent_capacity == DEFAULT_AGENT_CAPACITY
}

/// `c` runs on the provider chosen out of the merge of the lists `ls`.
pub open spec fn runs_on_merge(c: RuntimeConfig, ls: Seq<Seq<ProviderConfig>>) -> bool {
    let ps = merge_lists(Seq::empty(), ls);
    chosen_provider(ps) matches Some(i) && runs_on(c, ps[i])
}

/// Where the first keyed provider is.
fn first_keyed_index(ps: &Vec<ProviderConfig>) -> (r: Option<usize>)
    ensures
        match r {
            Some(i) => first_keyed(ps@, i as int),
            None => !exists|j: int| first_keyed(ps@, j),
        },
{
    let mut i: usize = 0;
    while i < ps.len()
        invariant
            i <= ps@.len(),
            forall|k: int| 0 <= k < i ==> !keyed(ps@[k]),
        decreases ps@.len() - i,
    {
        if ps[i].protocol.requires_api_key() && !ps[i].api_key.as_str().is_empty() {
            return Some(i);
        }
        i += 1;
    }
    None
}

impl RuntimeConfig {
    /// The built-in configuration, with the given API key.
    pub fn default_with_key(api_key: String) -> (c: Self)
        ensures
            is_default_config(c, api_key@),
    {
        let mut models: Vec<String> = Vec::new();
        models.push(String::from_str("big-pickle"));
        RuntimeConfig {
            provider: ProviderConfig {
                id: String::from_str("opencode"),
                name: String::from_str("OpenCode AI"),
                protocol: ProviderProtocol::OpenAiCompatible,
                base_url: String::from_str("https://opencode.ai/zen/v1"),
                api_key,
                models,
                timeout_secs: 60,
                max_retries: 3,
                max_connections: 5,
            },
            model: String::from_str("big-pickle"),
            agent_capacity: DEFAULT_AGENT_CAPACITY,
        }
    }

    /// The configuration for a merged provider list; `default_key` is the
    /// key of the built-in provider.
    pub fn from_merged(merged: Vec<ProviderConfig>, default_key: String) -> (c: Self)
        ensures
            match chosen_provider(merged@) {
                None => is_default_config(c, default_key@),
                Some(i) => runs_on(c, merged@[i]),
            },
    {
        let idx = match first_keyed_index(&merged) {
            Some(k) => k,
            None => {
                if merged.len() == 0 {
                    return RuntimeConfig::default_with_key(default_key);
                }
                0
            },
        };
        proof {
            if exists|j: int| first_keyed(merged@, j) {
                let j = choose|j: int| first_keyed(merged@, j);
                if j < idx {
                    assert(!keyed(merged@[j]));
                }
                if idx < j {
                    assert(!keyed(merged@[idx as int]));
                }
            }
        }
        let mut list = merged;
        let mut p = list.remove(idx);
        let model = if p.models.len() > 0 {
            p.models[0].clone()
        } else {
            String::from_str("big-pickle")
        };
        if p.models.len() == 0 {
            p.models.push(model.clone());
        }
        RuntimeConfig { provider: p, model, agent_capacity: DEFAULT_AGENT_CAPACITY }
    }

    /// Merge the sources and pick the provider; when a source fails to
    /// load, or none holds a provider, the built-in configuration. What each
    /// source loads is its own affair: the provider is chosen out of the
    /// merge of one loaded list per source.
    pub fn resolve(sources: &[&dyn ConfigSource], default_key: String) -> (c: Self)
        ensures
            is_default_config(c, default_key@) || exists|ls: Seq<Seq<ProviderConfig>>|
                ls.len() == sources@.len() && #[trigger] runs_on_merge(c, ls),
    {
        match merge_configs(sources) {
            Ok(merged) => {
                let ghost ps = merged@;
                let ghost ls = choose|ls: Seq<Seq<ProviderConfig>>|
                    ls.len() == sources@.len() && ps == #[trigger] merge_lists(Seq::empty(), ls);
                let c = RuntimeConfig::from_merged(merged, default_key);
                proof {
                    if chosen_provider(ps) is Some {
                        assert(runs_on_merge(c, ls));
                    }
                }
                c
            },
            Err(_) => RuntimeConfig::default_with_key(default_key),
        }
    }
}

/// A role as the user interface lists it.
#[derive(Debug, Clone)]
pub struct RoleInfo {
    pub id: String,
    pub name: String,
    pub definition: String,
}

/// One entry of an agent's transcript.
#[derive(Debug, Clone)]
pub enum ConversationMessage {
    User { text: String },
    Text { text: String },
    Thinking { text: String },
    Tool { text: String, result: Option<String> },
    Error { text: String },
}

/// The kind and text of a transcript entry, for the entries that streamed
/// text extends.
pub open spec fn streamed(m: ConversationMessage, reasoning: bool) -> Option<Seq<char>> {
    match m {
        ConversationMessage::Text { text } => if !reasoning {
            Some(text@)
        } else {
            None
        },
        ConversationMessage::Thinking { text } => if reasoning {
            Some(text@)
        } else {
            None
        },
        _ => None,
    }
}

/// `after` is the transcript `ms` with streamed text added: the last entry
/// of the same kind (answer or reasoning) grows, or a new one starts.
pub open spec fn text_appended(ms: Seq<ConversationMessage>, after: Seq<ConversationMessage>, text: Seq<char>, reasoning: bool) -> bool {
    if ms.len() > 0 && streamed(ms.last(), reasoning) is Some {
        &&& after.len() == ms.len()
        &&& after.subrange(0, ms.len() - 1) =~= ms.subrange(0, ms.len() - 1)
        &&& streamed(after.last(), reasoning) == Some(streamed(ms.last(), reasoning)->0 + text)
    } else {
        &&& after.len() == ms.len() + 1
        &&& after.subrange(0, ms.len() as int) =~= ms
        &&& streamed(after.last(), reasoning) == Some(text)
    }
}

/// Add streamed text to a transcript.
pub fn append_text(messages: &mut Vec<ConversationMessage>, text: &str, reasoning: bool)
    ensures
        text_appended(old(messages)@, final(messages)@, text@, reasoning),
{
    let n = messages.len();
    if n > 0 {
        let last = messages.pop().unwrap();
        let ghost before = messages@;
        match last {
            ConversationMessage::Text { text: current } if !reasoning => {
                let mut current = current;
                current.append(text);
                messages.push(ConversationMessage::Text { text: current });
                assert(messages@.subrange(0, n - 1) =~= before);
                return;
            },
            ConversationMessage::Thinking { text: current } if reasoning => {
                let mut current = current;
                current.append(text);
                messages.push(ConversationMessage::Thinking { text: current });
                assert(messages@.subrange(0, n - 1) =~= before);
                return;
            },
            other => {
                messages.push(other);
            },
        }
    }
    let ghost before = messages@;
    if reasoning {
        messages.push(ConversationMessage::Thinking { text: String::from_str(text) });
    } else {
        messages.push(ConversationMessage::Text { text: String::from_str(text) });
    }
    assert(messages@.subrange(0, n as int) =~= before);
}

/// Events the runtime sends to the user interface.
#[derive(Debug, Clone)]
pub enum WorkflowEvent {
    AgentAdded(AgentInfo),
    AgentRemoved(AgentId),
    AgentOutput { agent_id: AgentId, event: AgentEvent },
    TranscriptChanged(AgentId),
    ResyncRequired,
}

impl WorkflowEvent {
    /// The streamed answer or reasoning text an event carries.
    pub fn text(&self) -> (t: Option<&str>)
        ensures
            match *self {
                WorkflowEvent::AgentOutput { event: AgentEvent::Text(s), .. } => t matches Some(x) && x@ == s@,
                WorkflowEvent::AgentOutput { event: AgentEvent::Reasoning(s), .. } => t matches Some(x) && x@ == s@,
                _ => t is None,
            },
    {
        match self {
            WorkflowEvent::AgentOutput { event: AgentEvent::Text(s), .. } => Some(s.as_str()),
            WorkflowEvent::AgentOutput { event: AgentEvent::Reasoning(s), .. } => Some(s.as_str()),
            _ => None,
        }
    }

    /// The error an event carries.
    pub fn error(&self) -> (t: Option<&str>)
        ensures
            match *self {
                WorkflowEvent::AgentOutput { event: AgentEvent::Error(s), .. } => t matches Some(x) && x@ == s@,
                _ => t is None,
            },
    {
        match self {
            WorkflowEvent::AgentOutput { event: AgentEvent::Error(s), .. } => Some(s.as_str()),
            _ => None,
        }
    }
}

/// Stored metadata of a session.
#[derive(Debug, Clone)]
pub struct SessionMeta {
    pub id: u32,
    pub name: String,
    pub created_at: u64,
    pub last_used_at: u64,
    pub project: Option<String>,
}

/// A tool entry still waiting for the result of a call of tool `name`.
pub open spec fn open_call_for(m: ConversationMessage, name: Seq<char>) -> bool {
    match m {
        ConversationMessage::Tool { text, result } => result is None && text@.len() >= name.len() && text@.take(
            name.len() as int,
        ) == name,
        _ => false,
    }
}

/// `j` is the last entry of `ms` waiting for a result of tool `name`.
pub open spec fn last_open_call(ms: Seq<ConversationMessage>, name: Seq<char>, j: int) -> bool {
    0 <= j < ms.len() && open_call_for(ms[j], name) && forall|k: int| j < k < ms.len() ==> !open_call_for(#[trigger] ms[k], name)
}

/// `after` is `ms` with one entry added at the end.
pub open spec fn pushed(ms: Seq<ConversationMessage>, after: Seq<ConversationMessage>) -> bool {
    after.len() == ms.len() + 1 && after.subrange(0, ms.len() as int) =~= ms
}

/// How an agent's transcript takes in one of its events: streamed text and
/// reasoning extend the transcript; a tool call opens a tool entry; a tool
/// result fills the last open entry of that tool, or stands as an entry of
/// its own; an error is recorded; the end of a turn changes nothing.
pub open spec fn records(ms: Seq<ConversationMessage>, after: Seq<ConversationMessage>, event: AgentEvent) -> bool {
    match event {
        AgentEvent::Text(t) => text_appended(ms, after, t@, false),
        AgentEvent::Reasoning(t) => text_appended(ms, after, t@, true),
        AgentEvent::ToolCall { name, params } => pushed(ms, after) && (after.last() matches ConversationMessage::Tool {
            text,
            result,
        } && text@ == name@ + ": "@ + params@ && result is None),
        AgentEvent::ToolResult { name, result } => if exists|j: int| last_open_call(ms, name@, j) {
            let j = choose|j: int| last_open_call(ms, name@, j);
            &&& after.len() == ms.len()
            &&& forall|k: int| 0 <= k < ms.len() && k != j ==> after[k] == ms[k]
            &&& after[j] matches ConversationMessage::Tool { text, result: r } && (ms[j] matches ConversationMessage::Tool {
                text: t0,
                ..
            } && text@ == t0@) && (r matches Some(v) && v@ == result@)
        } else {
            pushed(ms, after) && (after.last() matches ConversationMessage::Tool { text, result: r } && text@ == name@ && (
            r matches Some(v) && v@ == result@))
        },
        AgentEvent::Error(e) => pushed(ms, after) && (after.last() matches ConversationMessage::Error { text } && text@
            == e@),
        AgentEvent::TurnComplete => after =~= ms,
    }
}

fn is_open_call_for(m: &ConversationMessage, name: &str) -> (b: bool)
    ensures
        b == open_call_for(*m, name@),
{
    match m {
        ConversationMessage::Tool { text, result } => {
            if result.is_some() {
                return false;
            }
            let cs = chars_of(text.as_str());
            starts_with_chars(&cs, name)
        },
        _ => false,
    }
}

/// Take an agent's event into its transcript.
pub fn record_agent_event(messages: &mut Vec<ConversationMessage>, event: &AgentEvent)
    ensures
        records(old(messages)@, final(messages)@, *event),
{
    match event {
        AgentEvent::Text(t) => append_text(messages, t.as_str(), false),
        AgentEvent::Reasoning(t) => append_text(messages, t.as_str(), true),
        AgentEvent::ToolCall { name, params } => {
            let mut text = String::from_str(name.as_str());
            text.append(": ");
            text.append(params.as_str());
            let ghost before = messages@;
            messages.push(ConversationMessage::Tool { text, result: None });
            assert(messages@.subrange(0, before.len() as int) =~= before);
        },
        AgentEvent::ToolResult { name, result } => {
            let ghost ms = messages@;
            let mut j: usize = messages.len();
            while j > 0 && !is_open_call_for(&messages[j - 1], name.as_str())
                invariant
                    j <= messages@.len(),
                    messages@ == ms,
                    forall|k: int| j <= k < ms.len() ==> !open_call_for(#[trigger] ms[k], name@),
                decreases j,
            {
                j -= 1;
            }
            if j == 0 {
                proof {
                    assert forall|i: int| !last_open_call(ms, name@, i) by {
                        if 0 <= i < ms.len() && open_call_for(ms[i], name@) {
                            assert(!open_call_for(ms[i], name@));
                        }
                    }
                }
                messages.push(
                    ConversationMessage::Tool {
                        text: String::from_str(name.as_str()),
                        result: Some(String::from_str(result.as_str())),
                    },
                );
                assert(messages@.subrange(0, ms.len() as int) =~= ms);
            } else {
                let k = j - 1;
                proof {
                    assert(last_open_call(ms, name@, k as int));
                    let c = choose|c: int| last_open_call(ms, name@, c);
                    if c < k {
                        assert(!open_call_for(ms[k as int], name@));
                    }
                    if k < c {
                        assert(!open_call_for(ms[c], name@));
                    }
                }
                let old_text = match &messages[k] {
                    ConversationMessage::Tool { text, .. } => text.clone(),
                    _ => String::new(),
                };
                messages.set(
                    k,
                    ConversationMessage::Tool { text: old_text, result: Some(String::from_str(result.as_str())) },
                );
            }
        },
        AgentEvent::Error(e) => {
            let ghost before = messages@;
            messages.push(ConversationMessage::Error { text: String::from_str(e.as_str()) });
            assert(messages@.subrange(0, before.len() as int) =~= before);
        },
        AgentEvent::TurnComplete => {},
    }
}

/// A role as the interface lists it: identified by its name.
pub fn role_info(role: &Role) -> (r: RoleInfo)
    ensures
        r.id@ == role.spec_name(),
        r.name@ == role.spec_name(),
        r.definition@ == role.spec_definition(),
{
    RoleInfo {
        id: String::from_str(role.name()),
        name: String::from_str(role.name()),
        definition: String::from_str(role.definition()),
    }
}

/// What the interface shows of a runtime: its agents, the agent shown and
/// that agent's transcript.
#[derive(Debug, Clone)]
pub struct RuntimeSnapshot {
    pub agents: Vec<AgentInfo>,
    pub selected: Option<AgentId>,
    pub messages: Vec<ConversationMessage>,
}

/// The agent a snapshot shows: the one asked for, else the first listed.
pub open spec fn shown_agent(agents: Seq<AgentInfo>, selected: Option<AgentId>) -> Option<AgentId> {
    match selected {
        Some(id) => Some(id),
        None => if agents.len() > 0 {
            Some(agents[0].id)
        } else {
            None
        },
    }
}

/// The agent a snapshot shows, out of the listed agents.
pub fn snapshot_selection(agents: &[AgentInfo], selected: Option<AgentId>) -> (r: Option<AgentId>)
    ensures
        r == shown_agent(agents@, selected),
{
    match selected {
        Some(id) => Some(id),
        None => if agents.len() > 0 {
            Some(agents[0].id)
        } else {
            None
        },
    }
}

} // verus!
