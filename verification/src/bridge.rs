//! What the terminal interface makes of each runtime event: the tree is
//! marked for redrawing, input may be enabled again, a message may join
//! the chat or the responsible agent's context, and the interface may be
//! told. Receiving the events, reading the clock and touching the shared
//! state are the caller's part.
use vstd::prelude::*;
use crate::guard::AgentId;
use crate::text::{decimal, decimal_string};
use crate::types::{MessageRole, RuntimeEvent};

verus! {

/// What the interface is told.
#[derive(Debug, Clone)]
pub enum AppNotice {
    SystemLog { content: String },
    AggregationStarting { agent_id: AgentId },
    ChatError { response_index: usize, request_id: usize, error: String },
}

/// What the interface does for one runtime event.
#[derive(Debug, Clone)]
pub struct BridgeStep {
    /// The tree's version after the event.
    pub tree_version: u64,
    /// Input is enabled again.
    pub enable_input: bool,
    /// A completed message for the chat, stamped by the caller.
    pub chat_message: Option<(MessageRole, String)>,
    /// A system message for an agent's model context.
    pub agent_context: Option<(AgentId, String)>,
    pub notice: Option<AppNotice>,
}

pub open spec fn hex_digit(d: int) -> char {
    if d < 10 {
        ((d + 48) as u8) as char
    } else {
        ((d - 10 + 97) as u8) as char
    }
}

/// An agent's short name: `..` and the first two bytes of its id in four
/// lowercase hex digits.
pub open spec fn short_id(id: AgentId) -> Seq<char> {
    "..".view() + seq![
        hex_digit(id@[0] as int / 16),
        hex_digit(id@[0] as int % 16),
        hex_digit(id@[1] as int / 16),
        hex_digit(id@[1] as int % 16),
    ]
}

pub(crate) fn hex_char(d: u8) -> (c: char)
    requires
        d < 16,
    ensures
        c == hex_digit(d as int),
{
    if d < 10 {
        (d + 48) as char
    } else {
        (d - 10 + 97) as char
    }
}

fn short_id_string(id: &AgentId) -> (s: String)
    ensures
        s@ == short_id(*id),
{
    let mut s = String::from_str("..");
    let digits = [hex_char(id[0] / 16), hex_char(id[0] % 16), hex_char(id[1] / 16), hex_char(id[1] % 16)];
    let mut k: usize = 0;
    let ghost start = s@;
    while k < 4
        invariant
            k <= 4,
            s@ == start + digits@.subrange(0, k as int),
        decreases 4 - k,
    {
        crate::text::push_char(&mut s, digits[k]);
        assert(digits@.subrange(0, k + 1) =~= digits@.subrange(0, k as int).push(digits@[k as int]));
        k += 1;
    }
    proof {
        reveal_strlit("..");
        assert(digits@.subrange(0, 4) =~= digits@);
    }
    s
}

/// At most the first `n` characters of `s`.
pub open spec fn first_n(s: Seq<char>, n: nat) -> Seq<char> {
    if s.len() <= n {
        s
    } else {
        s.subrange(0, n as int)
    }
}

fn first_chars(s: &str, n: usize) -> (r: String)
    ensures
        r@ == first_n(s@, n as nat),
{
    let cs = crate::text::chars_of(s);
    let end = if cs.len() <= n {
        cs.len()
    } else {
        n
    };
    let part = crate::text::chars_range(cs.as_slice(), 0, end);
    assert(end == cs@.len() ==> cs@.subrange(0, end as int) =~= cs@);
    crate::text::string_of(part.as_slice())
}

/// The line that reports a finished child.
pub open spec fn completion_text(child: AgentId, result: Seq<char>) -> Seq<char> {
    "[OK] Agent "@ + short_id(child) + " completed\n"@ + first_n(result, 120)
}

/// The step for `event`, with the tree at `tree_version` and `responsible`
/// the agent the user talks to.
pub open spec fn bridges(event: RuntimeEvent, tree_version: u64, responsible: Option<AgentId>, s: BridgeStep) -> bool {
    &&& s.tree_version == (if tree_version == u64::MAX {
        0
    } else {
        tree_version + 1
    })
    &&& match event {
        RuntimeEvent::ChildCompleted { parent_id, child_id, result } => {
            &&& !s.enable_input
            &&& if responsible == Some(parent_id) {
                &&& s.chat_message matches Some((role, text)) && role == MessageRole::System && text@
                    == completion_text(child_id, result@)
                &&& s.agent_context matches Some((id, text)) && id == parent_id && text@ == completion_text(
                    child_id,
                    result@,
                )
                &&& s.notice is None
            } else {
                &&& s.chat_message is None
                &&& s.agent_context is None
                &&& s.notice matches Some(AppNotice::SystemLog { content }) && content@ == completion_text(
                    child_id,
                    result@,
                )
            }
        },
        RuntimeEvent::ReadyForAggregation { agent_id } => {
            &&& s.enable_input
            &&& s.chat_message is None && s.agent_context is None
            &&& s.notice matches Some(AppNotice::AggregationStarting { agent_id: a }) && a == agent_id
        },
        RuntimeEvent::AggregationCompleted { result, .. } => {
            &&& s.enable_input
            &&& s.chat_message matches Some((role, text)) && role == MessageRole::Agent && text@ == result@
            &&& s.agent_context is None && s.notice is None
        },
        RuntimeEvent::AgentFailed { agent_id, error } => {
            &&& s.enable_input
            &&& s.chat_message is None && s.agent_context is None
            &&& s.notice matches Some(AppNotice::ChatError { response_index, request_id, error: e }) && response_index
                == 0 && request_id == 0 && e@ == "Agent "@ + short_id(agent_id) + " failed: "@ + error@
        },
        RuntimeEvent::InboxMessage { agent_id, from_name, unread_count, .. } => {
            &&& !s.enable_input
            &&& s.chat_message is None && s.agent_context is None
            &&& s.notice matches Some(AppNotice::SystemLog { content }) && content@ == "Message from "@ + from_name@
                + " -> "@ + short_id(agent_id) + " ("@ + decimal(unread_count as nat) + " unread)"@
        },
        _ => !s.enable_input && s.chat_message is None && s.agent_context is None && s.notice is None,
    }
}

fn nothing(tree_version: u64, enable_input: bool) -> (s: BridgeStep)
    ensures
        s.tree_version == tree_version,
        s.enable_input == enable_input,
        s.chat_message is None,
        s.agent_context is None,
        s.notice is None,
{
    BridgeStep { tree_version, enable_input, chat_message: None, agent_context: None, notice: None }
}

/// What the interface does for a runtime event.
pub fn bridge_step(event: RuntimeEvent, tree_version: u64, responsible: Option<AgentId>) -> (s: BridgeStep)
    ensures
        bridges(event, tree_version, responsible, s),
{
    let v = tree_version.wrapping_add(1);
    match event {
        RuntimeEvent::ChildCompleted { parent_id, child_id, result } => {
            let mut content = String::from_str("[OK] Agent ");
            content.append(short_id_string(&child_id).as_str());
            content.append(" completed\n");
            content.append(first_chars(result.as_str(), 120).as_str());
            let mine = match responsible {
                Some(r) => crate::audit::same_agent(&r, &parent_id),
                None => false,
            };
            if mine {
                let copy = String::from_str(content.as_str());
                BridgeStep {
                    tree_version: v,
                    enable_input: false,
                    chat_message: Some((MessageRole::System, content)),
                    agent_context: Some((parent_id, copy)),
                    notice: None,
                }
            } else {
                let mut s = nothing(v, false);
                s.notice = Some(AppNotice::SystemLog { content });
                s
            }
        },
        RuntimeEvent::ReadyForAggregation { agent_id } => {
            let mut s = nothing(v, true);
            s.notice = Some(AppNotice::AggregationStarting { agent_id });
            s
        },
        RuntimeEvent::AggregationCompleted { result, .. } => {
            let mut s = nothing(v, true);
            s.chat_message = Some((MessageRole::Agent, result));
            s
        },
        RuntimeEvent::AgentFailed { agent_id, error } => {
            let mut e = String::from_str("Agent ");
            e.append(short_id_string(&agent_id).as_str());
            e.append(" failed: ");
            e.append(error.as_str());
            let mut s = nothing(v, true);
            s.notice = Some(AppNotice::ChatError { response_index: 0, request_id: 0, error: e });
            s
        },
        RuntimeEvent::InboxMessage { agent_id, from_name, unread_count, .. } => {
            let mut content = String::from_str("Message from ");
            content.append(from_name.as_str());
            content.append(" -> ");
            content.append(short_id_string(&agent_id).as_str());
            content.append(" (");
            content.append(decimal_string(unread_count).as_str());
            content.append(" unread)");
            let mut s = nothing(v, false);
            s.notice = Some(AppNotice::SystemLog { content });
            s
        },
        _ => nothing(v, false),
    }
}

} // verus!
