//! Agent-side types: run states, messages between agents and the budget an
//! agent has for sending messages.
use vstd::prelude::*;
use crate::bridge::hex_digit;
use crate::text::{decimal, decimal_u64};

verus! {

pub type AgentId = u32;

pub type MessageId = u64;

pub type ThreadId = u64;

/// The run state of an agent.
#[derive(Debug, Clone, Copy, PartialEq, Eq, Structural)]
pub enum AgentState {
    Idle,
    Running,
    Hibernating,
    Stopped,
}

pub open spec fn state_text(s: AgentState) -> Seq<char> {
    match s {
        AgentState::Idle => "idle"@,
        AgentState::Running => "running"@,
        AgentState::Hibernating => "hibernating"@,
        AgentState::Stopped => "stopped"@,
    }
}

impl AgentState {
    /// The state as it is displayed.
    pub fn as_str(&self) -> (s: &'static str)
        ensures
            s@ == state_text(*self),
    {
        match self {
            AgentState::Idle => "idle",
            AgentState::Running => "running",
            AgentState::Hibernating => "hibernating",
            AgentState::Stopped => "stopped",
        }
    }
}

/// Semantic intent of an agent-to-agent message.
#[derive(Debug, Clone, Copy, PartialEq, Eq, Structural)]
pub enum PeerIntent {
    Inform,
    Request,
    Response,
}

impl Default for PeerIntent {
    fn default() -> (i: Self)
        ensures
            i == PeerIntent::Inform,
    {
        PeerIntent::Inform
    }
}

pub open spec fn intent_text(i: PeerIntent) -> Seq<char> {
    match i {
        PeerIntent::Inform => "inform"@,
        PeerIntent::Request => "request"@,
        PeerIntent::Response => "response"@,
    }
}

/// A message delivered between agents.
#[derive(Debug, Clone)]
pub struct PeerMessage {
    pub id: MessageId,
    pub thread_id: ThreadId,
    pub from: AgentId,
    pub to: AgentId,
    pub intent: PeerIntent,
    pub reply_to: Option<MessageId>,
    pub content: String,
}

/// How serde_json writes one character inside a JSON string: quote and
/// backslash behind a backslash; backspace, tab, line feed, form feed and
/// carriage return as `\b`, `\t`, `\n`, `\f`, `\r`; the other characters
/// below U+0020 as `\u00` and two lowercase hex digits; any other
/// character as it is.
pub open spec fn json_escaped_char(c: char) -> Seq<char> {
    if c == '"' {
        seq!['\\', '"']
    } else if c == '\\' {
        seq!['\\', '\\']
    } else if c == '\u{8}' {
        seq!['\\', 'b']
    } else if c == '\t' {
        seq!['\\', 't']
    } else if c == '\n' {
        seq!['\\', 'n']
    } else if c == '\u{c}' {
        seq!['\\', 'f']
    } else if c == '\r' {
        seq!['\\', 'r']
    } else if (c as int) < 0x20 {
        seq!['\\', 'u', '0', '0', hex_digit(c as int / 16), hex_digit(c as int % 16)]
    } else {
        seq![c]
    }
}

/// The characters of `s`, each written as inside a JSON string.
pub open spec fn json_escaped(s: Seq<char>) -> Seq<char>
    decreases s.len(),
{
    if s.len() == 0 {
        Seq::empty()
    } else {
        json_escaped(s.drop_last()) + json_escaped_char(s.last())
    }
}

/// What `serde_json::to_string` gives for a string: the escaped characters
/// between double quotes.
pub open spec fn spec_json_string(s: Seq<char>) -> Seq<char> {
    "\""@ + json_escaped(s) + "\""@
}

/// `serde_json::to_string` on a `String`. Serializing a string cannot fail
/// (the writer is a `Vec`, and a string is only written out escaped); the
/// result is the quoted, escaped text that `spec_json_string` describes.
#[verifier::external_body]
fn json_string(s: &String) -> (r: Option<String>)
    ensures
        r is Some,
        r->0@ == spec_json_string(s@),
{
    serde_json::to_string(s).ok()
}

/// The envelope in which a peer message reaches a model, around the body
/// `body`.
pub open spec fn envelope(m: PeerMessage, body: Seq<char>) -> Seq<char> {
    "<peer_message id=\""@ + decimal(m.id as nat) + "\" thread_id=\""@ + decimal(m.thread_id as nat) + "\" from=\""@
        + decimal(m.from as nat) + "\" to=\""@ + decimal(m.to as nat) + "\" intent=\""@ + intent_text(m.intent)
        + "\" reply_to=\""@ + match m.reply_to {
        Some(r) => decimal(r as nat),
        None => Seq::empty(),
    } + "\">\n<body>"@ + body + "</body>\n</peer_message>"@
}

impl PeerMessage {
    /// The transport envelope for a model turn; the body is the JSON string
    /// of the content, so that peer text cannot change the envelope.
    pub fn render_for_model(&self) -> (r: String)
        ensures
            r@ == envelope(*self, spec_json_string(self.content@)),
    {
        let body = match json_string(&self.content) {
            Some(b) => b,
            None => String::from_str("\"\""),
        };
        let mut r = String::from_str("<peer_message id=\"");
        r.append(decimal_u64(self.id).as_str());
        r.append("\" thread_id=\"");
        r.append(decimal_u64(self.thread_id).as_str());
        r.append("\" from=\"");
        r.append(decimal_u64(self.from as u64).as_str());
        r.append("\" to=\"");
        r.append(decimal_u64(self.to as u64).as_str());
        r.append("\" intent=\"");
        let intent = match self.intent {
            PeerIntent::Inform => "inform",
            PeerIntent::Request => "request",
            PeerIntent::Response => "response",
        };
        r.append(intent);
        r.append("\" reply_to=\"");
        match self.reply_to {
            Some(id) => r.append(decimal_u64(id).as_str()),
            None => {},
        }
        r.append("\">\n<body>");
        r.append(body.as_str());
        r.append("</body>\n</peer_message>");
        r
    }
}

/// A message for an agent.
#[derive(Debug, Clone)]
pub enum Message {
    User(String),
    AgentMessage(PeerMessage),
}

/// Out-of-band lifecycle controls.
#[derive(Debug, Clone, Copy, PartialEq, Eq, Structural)]
pub enum ControlMessage {
    Abort,
    Hibernate,
    Resume,
}

/// Why an agent could not be run.
#[derive(Debug, Clone, Copy, PartialEq, Eq, Structural)]
pub enum AgentRunError {
    AlreadyStarted,
    LifecyclePoisoned,
}

impl AgentRunError {
    pub fn message(&self) -> (s: &'static str)
        ensures
            s@ == match *self {
                AgentRunError::AlreadyStarted => "agent runtime has already been started"@,
                AgentRunError::LifecyclePoisoned => "agent lifecycle state is poisoned"@,
            },
    {
        match self {
            AgentRunError::AlreadyStarted => "agent runtime has already been started",
            AgentRunError::LifecyclePoisoned => "agent lifecycle state is poisoned",
        }
    }
}

/// Streamed output of an agent.
#[derive(Debug, Clone)]
pub enum AgentEvent {
    Text(String),
    Reasoning(String),
    ToolCall { name: String, params: String },
    ToolResult { name: String, result: String },
    TurnComplete,
    Error(String),
}

/// A summary of an agent in a pool.
#[derive(Debug, Clone)]
pub struct AgentInfo {
    pub id: AgentId,
    pub role: String,
    pub current_task: Option<String>,
}

/// How many messages an agent may still send before its budget is reset.
pub struct Budget {
    send_message_budget: u8,
    used_send_message_budget: u8,
}

impl Budget {
    pub closed spec fn limit(&self) -> u8 {
        self.send_message_budget
    }

    pub closed spec fn used(&self) -> u8 {
        self.used_send_message_budget
    }

    /// A budget of `send_message_budget` messages; 255 is not allowed.
    pub fn new(send_message_budget: u8) -> (b: Self)
        requires
            send_message_budget != u8::MAX,
        ensures
            b.limit() == send_message_budget,
            b.used() == 0,
    {
        Budget { send_message_budget, used_send_message_budget: 0 }
    }

    /// Take one message from the budget; `false` when it is spent.
    pub fn request_message(&mut self) -> (granted: bool)
        ensures
            final(self).limit() == old(self).limit(),
            granted == (old(self).used() < old(self).limit()),
            final(self).used() == if granted {
                (old(self).used() + 1) as u8
            } else {
                old(self).used()
            },
    {
        if self.send_message_budget > self.used_send_message_budget {
            self.used_send_message_budget += 1;
            true
        } else {
            false
        }
    }

    /// Restore the whole budget.
    pub fn reset(&mut self)
        ensures
            final(self).limit() == old(self).limit(),
            final(self).used() == 0,
    {
        self.used_send_message_budget = 0;
    }
}

/// The answers of `request_message` to `k` requests in a row, on a budget
/// of `limit` messages of which `used` are spent.
pub open spec fn answers(limit: u8, used: u8, k: nat) -> Seq<bool>
    decreases k,
{
    if k == 0 {
        Seq::empty()
    } else if used < limit {
        seq![true] + answers(limit, (used + 1) as u8, (k - 1) as nat)
    } else {
        seq![false] + answers(limit, used, (k - 1) as nat)
    }
}

/// Requests are granted while fewer than the limit are spent: the `i`-th of
/// a run of requests is granted exactly when `used + i < limit`. A fresh or
/// reset budget of `n` thus grants `n` requests and refuses every later one.
pub proof fn lemma_budget_answers(limit: u8, used: u8, k: nat)
    requires
        used <= limit,
    ensures
        answers(limit, used, k).len() == k,
        forall|i: int| 0 <= i < k ==> #[trigger] answers(limit, used, k)[i] == (used + i < limit),
    decreases k,
{
    if k > 0 {
        if used < limit {
            lemma_budget_answers(limit, (used + 1) as u8, (k - 1) as nat);
            assert forall|i: int| 0 <= i < k implies #[trigger] answers(limit, used, k)[i] == (used + i < limit) by {
                if i > 0 {
                    assert(answers(limit, used, k)[i] == answers(limit, (used + 1) as u8, (k - 1) as nat)[i - 1]);
                }
            }
        } else {
            lemma_budget_answers(limit, used, (k - 1) as nat);
            assert forall|i: int| 0 <= i < k implies #[trigger] answers(limit, used, k)[i] == (used + i < limit) by {
                if i > 0 {
                    assert(answers(limit, used, k)[i] == answers(limit, used, (k - 1) as nat)[i - 1]);
                }
            }
        }
    }
}

} // verus!
