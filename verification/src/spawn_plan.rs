//! What spawning an agent decides before and around its outside work: which
//! path a request takes, the depth limit for children, and the names and
//! trace ids given to the new agent. Embedding, approval and the agent
//! pool are the caller's part.
use vstd::prelude::*;
use crate::bridge::{hex_char, hex_digit};
use crate::guard::AgentId;
use crate::text::{chars_of, decimal, decimal_string, string_of};
use crate::types::SpawnParent;

verus! {

/// The path a spawn request takes.
#[derive(Debug, Clone, Copy)]
pub enum SpawnRoute {
    /// A root agent without approval: it gets a root task of its own.
    Bootstrap,
    /// A root agent through embedding and approval.
    RootPipeline,
    /// A child agent through embedding and approval, one level below its
    /// parent.
    ChildPipeline { parent_id: AgentId, depth: u32 },
}

/// Why a spawn request is refused before any outside work.
#[derive(Debug, Clone, Copy, PartialEq, Eq, Structural)]
pub enum RouteError {
    /// The child would reach the depth limit.
    DepthLimit { max_depth: u32, depth: u32 },
    /// A child must come with a value statement.
    ChildWithoutValueStatement,
}

/// The route of a request, by whether it has a value statement and a
/// parent; a child is refused when its depth would reach `max_depth`.
pub open spec fn route_of(has_value_statement: bool, parent: Option<SpawnParent>, max_depth: u32) -> Result<
    SpawnRoute,
    RouteError,
> {
    match (has_value_statement, parent) {
        (true, None) => Ok(SpawnRoute::RootPipeline),
        (false, None) => Ok(SpawnRoute::Bootstrap),
        (true, Some(p)) => if p.depth + 1 >= max_depth {
            Err(RouteError::DepthLimit { max_depth, depth: (p.depth + 1) as u32 })
        } else {
            Ok(SpawnRoute::ChildPipeline { parent_id: p.id, depth: (p.depth + 1) as u32 })
        },
        (false, Some(_)) => Err(RouteError::ChildWithoutValueStatement),
    }
}

/// The route a spawn request takes.
pub fn spawn_route(has_value_statement: bool, parent: Option<SpawnParent>, max_depth: u32) -> (r: Result<
    SpawnRoute,
    RouteError,
>)
    requires
        has_value_statement && parent is Some ==> parent->0.depth < u32::MAX,
    ensures
        r == route_of(has_value_statement, parent, max_depth),
{
    match parent {
        None => if has_value_statement {
            Ok(SpawnRoute::RootPipeline)
        } else {
            Ok(SpawnRoute::Bootstrap)
        },
        Some(p) => {
            if !has_value_statement {
                return Err(RouteError::ChildWithoutValueStatement);
            }
            let depth = p.depth + 1;
            if depth >= max_depth {
                Err(RouteError::DepthLimit { max_depth, depth })
            } else {
                Ok(SpawnRoute::ChildPipeline { parent_id: p.id, depth })
            }
        },
    }
}

/// The text of a refusal.
pub open spec fn route_error_text(e: RouteError, role: Seq<char>) -> Seq<char> {
    match e {
        RouteError::DepthLimit { max_depth, depth } => "Agent depth limit ("@ + decimal(max_depth as nat)
            + ") reached \u{2014} cannot spawn '"@ + role + "' at depth "@ + decimal(depth as nat),
        RouteError::ChildWithoutValueStatement =>
            "Cannot spawn a child agent without a value statement (bootstrap child not supported)"@,
    }
}

impl RouteError {
    /// What the refusal says, for the agent of role `role`.
    pub fn message(&self, role: &str) -> (s: String)
        ensures
            s@ == route_error_text(*self, role@),
    {
        match self {
            RouteError::DepthLimit { max_depth, depth } => {
                let mut s = String::from_str("Agent depth limit (");
                let m = decimal_string(*max_depth as usize);
                s.append(m.as_str());
                s.append(") reached \u{2014} cannot spawn '");
                s.append(role);
                s.append("' at depth ");
                let d = decimal_string(*depth as usize);
                s.append(d.as_str());
                s
            },
            RouteError::ChildWithoutValueStatement => String::from_str(
                "Cannot spawn a child agent without a value statement (bootstrap child not supported)",
            ),
        }
    }
}

/// Four lowercase hex digits of the 16-bit number `hi * 256 + lo`.
pub open spec fn hex4(hi: u8, lo: u8) -> Seq<char> {
    seq![
        hex_digit(hi as int / 16),
        hex_digit(hi as int % 16),
        hex_digit(lo as int / 16),
        hex_digit(lo as int % 16),
    ]
}

fn push_hex4(s: &mut String, hi: u8, lo: u8)
    ensures
        final(s)@ == old(s)@ + hex4(hi, lo),
{
    let digits = [hex_char(hi / 16), hex_char(hi % 16), hex_char(lo / 16), hex_char(lo % 16)];
    let cs = string_of(&digits);
    s.append(cs.as_str());
    assert(digits@ =~= hex4(hi, lo));
}

/// An agent's name: its role, a hyphen, and the first two bytes of its id
/// in four hex digits.
pub open spec fn agent_name_of(role: Seq<char>, id: AgentId) -> Seq<char> {
    role + "-"@ + hex4(id@[0], id@[1])
}

pub fn agent_display_name(role: &str, id: &AgentId) -> (s: String)
    ensures
        s@ == agent_name_of(role@, *id),
{
    let mut s = String::from_str(role);
    s.append("-");
    push_hex4(&mut s, id[0], id[1]);
    s
}

/// A child's plan name: its role, the first 16 characters of its goal and
/// the first byte of its id in four hex digits, joined by hyphens.
pub open spec fn plan_name_of(role: Seq<char>, goal: Seq<char>, id: AgentId) -> Seq<char> {
    role + "-"@ + goal.take(if goal.len() < 16 {
        goal.len() as int
    } else {
        16
    }) + "-"@ + hex4(0, id@[0])
}

pub fn plan_name(role: &str, goal: &str, id: &AgentId) -> (s: String)
    ensures
        s@ == plan_name_of(role@, goal@, *id),
{
    let cs = chars_of(goal);
    let n = if cs.len() < 16 {
        cs.len()
    } else {
        16
    };
    let head = string_of(&cs.as_slice()[0..n]);
    let mut s = String::from_str(role);
    s.append("-");
    s.append(head.as_str());
    s.append("-");
    push_hex4(&mut s, 0, id[0]);
    assert(cs@.subrange(0, n as int) == goal@.take(n as int));
    s
}

/// The first eight bytes of an id read as a little-endian number.
pub open spec fn span_of(id: AgentId) -> nat {
    let b = id@;
    (b[0] + b[1] * 0x100 + b[2] * 0x1_0000 + b[3] * 0x100_0000 + b[4] * 0x1_0000_0000 + b[5] * 0x100_0000_0000
        + b[6] * 0x1_0000_0000_0000 + b[7] * 0x100_0000_0000_0000) as nat
}

/// The span a child's request names as its parent's: the parent id's first
/// eight bytes, little-endian.
pub fn parent_span_id(parent_id: &AgentId) -> (s: u64)
    ensures
        s == span_of(*parent_id),
{
    let b = parent_id;
    b[0] as u64 + b[1] as u64 * 0x100 + b[2] as u64 * 0x1_0000 + b[3] as u64 * 0x100_0000 + b[4] as u64
        * 0x1_0000_0000 + b[5] as u64 * 0x100_0000_0000 + b[6] as u64 * 0x1_0000_0000_0000 + b[7] as u64
        * 0x100_0000_0000_0000
}

} // verus!
