//! What the event loop decides once an agent's run has ended: whether to
//! try it again, what its parent is handed, what a failure reports, and
//! whether a parent's children have all finished. Running agents, storing
//! assets and sending events are the caller's part.
use vstd::prelude::*;
use crate::agent_tree::{active, active_agent, find_first, lookup_first, spec_has_active_delegations, AgentPool, AgentStatus};
use crate::guard::AgentId;
use crate::synthesis::joined_with;
use crate::text::{chars_of, chars_range, decimal, decimal_string, find_sub, first_occ, lemma_first_occ, string_of, trim, trim_range, utf8_len};

verus! {

/// What happens after a run.
#[derive(Debug, Clone, Copy, PartialEq, Eq, Structural)]
pub enum AfterRun {
    /// Run again: the agent's retry count becomes `retry_count`, it is set
    /// idle without a result, its task is put back and it is activated.
    Retry { retry_count: u32 },
    /// Report how the run ended.
    Report,
}

/// A failed run is tried again while the agent has retries left.
pub open spec fn after_run_of(status: AgentStatus, retry_count: u32, max_retries: u32) -> AfterRun {
    if status == AgentStatus::Failed && retry_count < max_retries {
        AfterRun::Retry { retry_count: (retry_count + 1) as u32 }
    } else {
        AfterRun::Report
    }
}

pub fn after_run(status: AgentStatus, retry_count: u32, max_retries: u32) -> (a: AfterRun)
    ensures
        a == after_run_of(status, retry_count, max_retries),
{
    if status == AgentStatus::Failed && retry_count < max_retries {
        AfterRun::Retry { retry_count: retry_count + 1 }
    } else {
        AfterRun::Report
    }
}

/// The most bytes of a result handed to a parent as it is.
pub const INLINE_RESULT_BYTES: usize = 1024;

/// Whether a child's result is too large to hand over as it is.
pub open spec fn large_result(result: Seq<char>) -> bool {
    utf8_len(result) > INLINE_RESULT_BYTES
}

pub fn needs_asset(result: &str) -> (b: bool)
    ensures
        b == large_result(result@),
{
    result.len() > INLINE_RESULT_BYTES
}

/// The first `n` characters of `s`, or all of it.
pub open spec fn first_chars(s: Seq<char>, n: nat) -> Seq<char> {
    if s.len() <= n {
        s
    } else {
        s.take(n as int)
    }
}

pub fn take_chars(s: &str, n: usize) -> (r: String)
    ensures
        r@ == first_chars(s@, n as nat),
{
    let cs = chars_of(s);
    let k = if cs.len() <= n {
        cs.len()
    } else {
        n
    };
    let r = string_of(&cs.as_slice()[0..k]);
    assert(cs@.subrange(0, k as int) =~= first_chars(s@, n as nat));
    r
}

/// The asset id in a handle such as `[asset ... ID: abc]`: what follows the
/// first `ID: ` up to the next `]`, trimmed; empty where either is missing.
pub open spec fn asset_id_in(handle: Seq<char>) -> Seq<char> {
    match first_occ(handle, "ID: "@) {
        Some(i) => {
            let rest = handle.subrange(i + 4, handle.len() as int);
            match first_occ(rest, "]"@) {
                Some(j) => trim(rest.subrange(0, j)),
                None => Seq::empty(),
            }
        },
        None => Seq::empty(),
    }
}

pub fn asset_id(handle: &str) -> (r: String)
    ensures
        r@ == asset_id_in(handle@),
{
    let h = chars_of(handle);
    let marker = chars_of("ID: ");
    proof {
        reveal_strlit("ID: ");
    }
    match find_sub(h.as_slice(), marker.as_slice()) {
        None => {
            proof {
                assert(first_occ(h@, "ID: "@) is None);
            }
            String::new()
        },
        Some(i) => {
            proof {
                lemma_first_occ(h@, "ID: "@, i as int);
                assert(marker@.len() == 4);
                assert(i + 4 <= h@.len());
                assert(h@.len() == h.len());
            }
            let rest = chars_range(h.as_slice(), i + 4, h.len());
            let close = chars_of("]");
            match find_sub(rest.as_slice(), close.as_slice()) {
                None => String::new(),
                Some(j) => {
                    proof {
                        lemma_first_occ(rest@, "]"@, j as int);
                    }
                    let t = trim_range(rest.as_slice(), 0, j);
                    string_of(t.as_slice())
                },
            }
        },
    }
}

/// A pointer to a stored result, as the parent's message carries it.
#[derive(Debug, Clone)]
pub struct AssetPointer {
    pub asset_id: String,
    pub tool_name: String,
    pub hint: String,
}

/// What a parent is handed of a child's result.
#[derive(Debug, Clone)]
pub struct Handoff {
    pub summary: String,
    pub payload: Option<AssetPointer>,
}

/// A small result is handed over as it is. A large one that was stored as
/// an asset is handed over as its size in KB, the asset's id and its first
/// 200 characters, with a pointer to the asset; one that could not be
/// stored, by its first 512 characters.
pub open spec fn handoff_of(result: Seq<char>, stored: Option<Seq<char>>) -> (Seq<char>, Option<(Seq<char>, Seq<char>, Seq<char>)>) {
    if !large_result(result) {
        (result, None)
    } else {
        match stored {
            Some(handle) => {
                let id = asset_id_in(handle);
                (
                    "[\u{2248}"@ + decimal((utf8_len(result) / 1024) as nat) + "KB, asset: "@ + id + "]\n"@ + first_chars(
                        result,
                        200,
                    ),
                    Some((id, "agent_result"@, "Agent produced "@ + decimal(utf8_len(result) as nat) + " bytes"@)),
                )
            },
            None => (first_chars(result, 512), None),
        }
    }
}

pub open spec fn handoff_view(h: Handoff) -> (Seq<char>, Option<(Seq<char>, Seq<char>, Seq<char>)>) {
    (
        h.summary@,
        match h.payload {
            Some(p) => Some((p.asset_id@, p.tool_name@, p.hint@)),
            None => None,
        },
    )
}

/// What a parent is handed of a finished child's `result`; `stored` is the
/// handle of the asset the result was stored as, where it was.
pub fn child_handoff(result: &str, stored: Option<&str>) -> (h: Handoff)
    ensures
        handoff_view(h) == handoff_of(result@, match stored {
            Some(s) => Some(s@),
            None => None,
        }),
{
    if !needs_asset(result) {
        return Handoff { summary: String::from_str(result), payload: None };
    }
    match stored {
        None => Handoff { summary: take_chars(result, 512), payload: None },
        Some(handle) => {
            let id = asset_id(handle);
            let len = result.len();
            let mut summary = String::from_str("[\u{2248}");
            summary.append(decimal_string(len / 1024).as_str());
            summary.append("KB, asset: ");
            summary.append(id.as_str());
            summary.append("]\n");
            summary.append(take_chars(result, 200).as_str());
            let mut hint = String::from_str("Agent produced ");
            hint.append(decimal_string(len).as_str());
            hint.append(" bytes");
            Handoff {
                summary,
                payload: Some(AssetPointer { asset_id: id, tool_name: String::from_str("agent_result"), hint }),
            }
        },
    }
}

/// What a failed run reports: its result, or a plain notice where it has
/// none.
pub open spec fn failure_text(result: Seq<char>) -> Seq<char> {
    if result.len() == 0 {
        "Agent execution failed (no result)"@
    } else {
        result
    }
}

pub fn failure_message(result: &str) -> (s: String)
    ensures
        s@ == failure_text(result@),
{
    if result.is_empty() {
        String::from_str("Agent execution failed (no result)")
    } else {
        String::from_str(result)
    }
}

/// A child that the pool knows and that has finished, well or not.
pub open spec fn settled(agents: Seq<crate::agent_tree::Agent>, id: AgentId) -> bool {
    lookup_first(agents, id) matches Some(c) && !active(agents[c].status)
}

/// Whether every child of the parent has finished; `None` where the pool
/// does not know the parent.
pub open spec fn spec_children_settled(agents: Seq<crate::agent_tree::Agent>, parent: AgentId) -> Option<bool> {
    match lookup_first(agents, parent) {
        None => None,
        Some(i) => Some(forall|k: int| 0 <= k < agents[i].children@.len() ==> #[trigger] settled(agents, agents[i].children@[k])),
    }
}

/// Whether a parent can move on to aggregating its children's results.
pub fn children_settled(pool: &AgentPool, parent: &AgentId) -> (r: Option<bool>)
    ensures
        r == spec_children_settled(pool.spec_agents(), *parent),
{
    let agents = pool.agents();
    match find_first(agents, parent) {
        None => None,
        Some(i) => {
            let kids = &agents[i].children;
            let mut k: usize = 0;
            while k < kids.len()
                invariant
                    k <= kids@.len(),
                    kids@ == agents@[i as int].children@,
                    agents@ == pool.spec_agents(),
                    lookup_first(agents@, *parent) == Some(i as int),
                    forall|q: int| 0 <= q < k ==> #[trigger] settled(agents@, kids@[q]),
                decreases kids@.len() - k,
            {
                let done = match find_first(agents, &kids[k]) {
                    Some(c) => matches!(agents[c].status, AgentStatus::Completed | AgentStatus::Failed),
                    None => false,
                };
                if !done {
                    assert(!settled(agents@, kids@[k as int]));
                    return Some(false);
                }
                k += 1;
            }
            Some(true)
        },
    }
}

/// A parent whose children have all finished has no delegation at work.
pub proof fn lemma_settled_means_no_active_delegation(pool: &AgentPool, parent: AgentId)
    requires
        spec_children_settled(pool.spec_agents(), parent) == Some(true),
    ensures
        !spec_has_active_delegations(pool.spec_agents(), parent),
{
    let agents = pool.spec_agents();
    let i = lookup_first(agents, parent)->0;
    assert forall|k: int| 0 <= k < agents[i].children@.len() implies !#[trigger] active_agent(
        agents,
        agents[i].children@[k],
    ) by {
        assert(settled(agents, agents[i].children@[k]));
    }
}

/// The result a parent is given when putting its children's results
/// together fails: the error, and the children's results as they are.
pub open spec fn aggregation_fallback_text(error: Seq<char>, child_results: Seq<Seq<char>>) -> Seq<char> {
    if child_results.len() == 0 {
        "Aggregation synthesis failed: "@ + error + "\n\nAll sub-tasks completed but no results were captured."@
    } else {
        "Aggregation synthesis failed ("@ + error + ").  Raw sub-task results:\n\n---\n"@ + joined_with(
            child_results,
            "\n\n---\n\n"@,
        ) + "\n\n---\n*Degraded output*"@
    }
}

pub open spec fn result_texts(rs: Seq<(AgentId, String)>) -> Seq<Seq<char>> {
    rs.map_values(|p: (AgentId, String)| p.1@)
}

pub fn aggregation_fallback(error: &str, child_results: &[(AgentId, String)]) -> (s: String)
    ensures
        s@ == aggregation_fallback_text(error@, result_texts(child_results@)),
{
    if child_results.len() == 0 {
        let mut s = String::from_str("Aggregation synthesis failed: ");
        s.append(error);
        s.append("\n\nAll sub-tasks completed but no results were captured.");
        return s;
    }
    let mut joined = String::new();
    let mut i: usize = 0;
    while i < child_results.len()
        invariant
            i <= child_results@.len(),
            joined@ == joined_with(result_texts(child_results@.subrange(0, i as int)), "\n\n---\n\n"@),
        decreases child_results@.len() - i,
    {
        let ghost before = result_texts(child_results@.subrange(0, i as int));
        if i > 0 {
            joined.append("\n\n---\n\n");
        }
        joined.append(child_results[i].1.as_str());
        proof {
            let next = result_texts(child_results@.subrange(0, i + 1));
            assert(next.drop_last() =~= before);
            assert(next.last() == child_results@[i as int].1@);
            if i == 0 {
                assert(next.len() == 1);
            }
        }
        i += 1;
    }
    assert(child_results@.subrange(0, child_results@.len() as int) =~= child_results@);
    let mut s = String::from_str("Aggregation synthesis failed (");
    s.append(error);
    s.append(").  Raw sub-task results:\n\n---\n");
    s.append(joined.as_str());
    s.append("\n\n---\n*Degraded output*");
    s
}

/// A message in an agent's inbox: who sent it, the text, the pointer to a
/// stored result where there is one, and when it came.
#[derive(Debug, Clone)]
pub struct InboxMessage {
    pub from: AgentId,
    pub from_name: String,
    pub content: String,
    pub payload: Option<AssetPointer>,
    pub timestamp: u64,
}

/// The inbox after `msg` arrives: a full inbox (holding `max_size` or more)
/// first drops its oldest message.
pub open spec fn inbox_after(inbox: Seq<InboxMessage>, msg: InboxMessage, max_size: nat) -> Seq<InboxMessage> {
    if inbox.len() >= max_size && inbox.len() > 0 {
        inbox.drop_first().push(msg)
    } else {
        inbox.push(msg)
    }
}

/// Deliver a message to an inbox of at most `max_size` messages.
pub fn deliver(inbox: &mut Vec<InboxMessage>, msg: InboxMessage, max_size: usize)
    ensures
        final(inbox)@ == inbox_after(old(inbox)@, msg, max_size as nat),
{
    if inbox.len() >= max_size && inbox.len() > 0 {
        inbox.remove(0);
    }
    inbox.push(msg);
}

/// What the loop keeps of a run to retry it: status, result and retries.
#[derive(Debug, Clone)]
pub struct RunRecord {
    pub status: AgentStatus,
    pub result: Option<String>,
    pub retry_count: u32,
}

/// Make a failed run ready to go again, as `after_run` decided: one more
/// retry counted, the agent idle and its stale result gone. `after_run`
/// retries only below the limit, so the count has room.
pub fn reset_for_retry(run: &mut RunRecord)
    requires
        old(run).retry_count < u32::MAX,
    ensures
        final(run).status == AgentStatus::Idle,
        final(run).result is None,
        final(run).retry_count == old(run).retry_count + 1,
{
    run.retry_count = run.retry_count + 1;
    run.status = AgentStatus::Idle;
    run.result = None;
}

} // verus!
