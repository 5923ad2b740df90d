//! The runtime event loop's decisions: when to evict idle agents and save
//! a checkpoint, what to do with each event, and which dependency edges a
//! decomposition adds between the new tasks. The loop itself, the agent
//! pool, the task graph and the checkpoint files are the caller's part.
use vstd::prelude::*;
use crate::agent_tree::AgentStatus;
use crate::guard::{AgentId, TaskId};
use crate::text::str_eq;
use crate::types::{RuntimeEvent, SubtaskDef};

verus! {

/// Events between evictions of stale and least-recently-used agents.
pub const EVICTION_INTERVAL: u64 = 120;

/// Events between checks of whether a checkpoint is due.
pub const CHECKPOINT_CHECK_INTERVAL: u64 = 10;

/// The loop's event counters.
#[derive(Debug, Clone, Copy)]
pub struct LoopTicks {
    pub eviction_tick: u64,
    pub checkpoint_tick: u64,
}

/// What is due before an event is handled.
#[derive(Debug, Clone, Copy, PartialEq, Eq, Structural)]
pub struct TickPlan {
    pub evict: bool,
    pub checkpoint: bool,
}

/// Count one more event: every 120th event evicts agents; every 10th event
/// checks the checkpoint counter, which saves a checkpoint when the
/// interval is set and the counter is a multiple of it, and then moves on.
pub fn tick(ticks: &mut LoopTicks, checkpoint_interval: u64) -> (p: TickPlan)
    requires
        old(ticks).eviction_tick < u64::MAX,
        old(ticks).checkpoint_tick < u64::MAX,
    ensures
        final(ticks).eviction_tick == old(ticks).eviction_tick + 1,
        p.evict == (final(ticks).eviction_tick % EVICTION_INTERVAL == 0),
        final(ticks).eviction_tick % CHECKPOINT_CHECK_INTERVAL == 0 ==> {
            &&& p.checkpoint == (checkpoint_interval > 0 && old(ticks).checkpoint_tick % checkpoint_interval == 0)
            &&& final(ticks).checkpoint_tick == old(ticks).checkpoint_tick + 1
        },
        final(ticks).eviction_tick % CHECKPOINT_CHECK_INTERVAL != 0 ==> {
            &&& !p.checkpoint
            &&& final(ticks).checkpoint_tick == old(ticks).checkpoint_tick
        },
{
    ticks.eviction_tick = ticks.eviction_tick + 1;
    let evict = ticks.eviction_tick % EVICTION_INTERVAL == 0;
    let mut checkpoint = false;
    if ticks.eviction_tick % CHECKPOINT_CHECK_INTERVAL == 0 {
        checkpoint = checkpoint_interval > 0 && ticks.checkpoint_tick % checkpoint_interval == 0;
        ticks.checkpoint_tick = ticks.checkpoint_tick + 1;
    }
    TickPlan { evict, checkpoint }
}

/// What the loop does with an event.
#[derive(Debug, Clone)]
pub enum LoopAction {
    /// A message reached an agent that is not working: set it planning,
    /// run it, and pass the event on.
    Reactivate { agent_id: AgentId, forward: RuntimeEvent },
    /// A message reached an agent at work (or none): mark it active and
    /// pass the event on.
    Touch { agent_id: AgentId, forward: RuntimeEvent },
    /// Run an agent.
    Activate { agent_id: AgentId, parent_id: Option<AgentId> },
    /// Record a finished task, then schedule.
    CompleteTask { task_id: TaskId, result: String },
    /// Record a failed task, then schedule.
    FailTask { task_id: TaskId, error: String },
    /// Add the subtasks under the agent's task, then schedule.
    Decompose { parent_agent: AgentId, subtasks: Vec<SubtaskDef> },
    /// Pass the event on to the interface.
    Forward(RuntimeEvent),
}

/// An agent that is waiting, finished or failed is run again when a
/// message reaches it.
pub open spec fn wakes(status: Option<AgentStatus>) -> bool {
    status == Some(AgentStatus::Completed) || status == Some(AgentStatus::Failed) || status == Some(
        AgentStatus::Idle,
    )
}

/// The loop's action for `event`; `inbox_agent` is the status of the
/// agent a message is for (`None` where it is not in the pool).
pub open spec fn dispatches(event: RuntimeEvent, inbox_agent: Option<AgentStatus>, a: LoopAction) -> bool {
    match event {
        RuntimeEvent::InboxMessage { agent_id, .. } => if wakes(inbox_agent) {
            a == (LoopAction::Reactivate { agent_id, forward: event })
        } else {
            a == (LoopAction::Touch { agent_id, forward: event })
        },
        RuntimeEvent::ActivateAgent { agent_id, parent_id } => a == (LoopAction::Activate { agent_id, parent_id }),
        RuntimeEvent::TaskCompleted { task_id, result } => a == (LoopAction::CompleteTask { task_id, result }),
        RuntimeEvent::TaskFailed { task_id, error } => a == (LoopAction::FailTask { task_id, error }),
        RuntimeEvent::DecomposeTask { parent_agent, subtasks } => a == (LoopAction::Decompose {
            parent_agent,
            subtasks,
        }),
        _ => a == LoopAction::Forward(event),
    }
}

pub fn loop_dispatch(event: RuntimeEvent, inbox_agent: Option<AgentStatus>) -> (a: LoopAction)
    ensures
        dispatches(event, inbox_agent, a),
{
    match event {
        RuntimeEvent::InboxMessage { agent_id, from_name, preview, unread_count } => {
            let forward = RuntimeEvent::InboxMessage { agent_id, from_name, preview, unread_count };
            let wake = match inbox_agent {
                Some(AgentStatus::Completed) | Some(AgentStatus::Failed) | Some(AgentStatus::Idle) => true,
                _ => false,
            };
            if wake {
                LoopAction::Reactivate { agent_id, forward }
            } else {
                LoopAction::Touch { agent_id, forward }
            }
        },
        RuntimeEvent::ActivateAgent { agent_id, parent_id } => LoopAction::Activate { agent_id, parent_id },
        RuntimeEvent::TaskCompleted { task_id, result } => LoopAction::CompleteTask { task_id, result },
        RuntimeEvent::TaskFailed { task_id, error } => LoopAction::FailTask { task_id, error },
        RuntimeEvent::DecomposeTask { parent_agent, subtasks } => LoopAction::Decompose { parent_agent, subtasks },
        other => LoopAction::Forward(other),
    }
}

/// The last subtask with id `x`, among the first `n`.
pub open spec fn last_with_id(ids: Seq<Seq<char>>, x: Seq<char>, n: int) -> Option<int>
    decreases n,
{
    if n <= 0 {
        None
    } else if ids[n - 1] == x {
        Some(n - 1)
    } else {
        last_with_id(ids, x, n - 1)
    }
}

pub open spec fn subtask_ids(subs: Seq<SubtaskDef>) -> Seq<Seq<char>> {
    subs.map_values(|s: SubtaskDef| s.id@)
}

/// The edges one subtask's first `k` dependencies add: from the task of
/// the last subtask with its id to the task of the last subtask with the
/// dependency's id; a dependency on no subtask adds nothing.
pub open spec fn dep_edges(ids: Seq<Seq<char>>, from: int, deps: Seq<String>, k: int) -> Seq<(int, int)>
    decreases k,
{
    if k <= 0 {
        Seq::empty()
    } else {
        let prev = dep_edges(ids, from, deps, k - 1);
        match last_with_id(ids, deps[k - 1]@, ids.len() as int) {
            Some(t) => prev.push((from, t)),
            None => prev,
        }
    }
}

/// The dependency edges of the first `n` subtasks, in order; the subtasks'
/// tasks are created in the order of the list, one each.
pub open spec fn decomposition_edge_seq(subs: Seq<SubtaskDef>, n: int) -> Seq<(int, int)>
    decreases n,
{
    if n <= 0 {
        Seq::empty()
    } else {
        let ids = subtask_ids(subs);
        let from = match last_with_id(ids, ids[n - 1], ids.len() as int) {
            Some(c) => c,
            None => n - 1,
        };
        decomposition_edge_seq(subs, n - 1) + dep_edges(ids, from, subs[n - 1].depend_on@, subs[n - 1].depend_on@.len() as int)
    }
}

fn find_last_id(subs: &[SubtaskDef], x: &str) -> (r: Option<usize>)
    ensures
        match r {
            Some(i) => last_with_id(subtask_ids(subs@), x@, subs@.len() as int) == Some(i as int),
            None => last_with_id(subtask_ids(subs@), x@, subs@.len() as int) is None,
        },
{
    let ghost ids = subtask_ids(subs@);
    let mut i: usize = subs.len();
    while i > 0
        invariant
            i <= subs@.len(),
            ids == subtask_ids(subs@),
            last_with_id(ids, x@, subs@.len() as int) == last_with_id(ids, x@, i as int),
        decreases i,
    {
        if str_eq(subs[i - 1].id.as_str(), x) {
            assert(ids[i - 1] == x@);
            return Some(i - 1);
        }
        assert(ids[i - 1] != x@);
        i -= 1;
    }
    None
}

/// The dependency edges a decomposition adds between its new tasks, as
/// pairs of positions in the subtask list (dependent, dependency).
pub fn decomposition_edges(subtasks: &[SubtaskDef]) -> (r: Vec<(usize, usize)>)
    ensures
        r@.len() == decomposition_edge_seq(subtasks@, subtasks@.len() as int).len(),
        forall|k: int| 0 <= k < r@.len() ==> (#[trigger] r@[k]).0 as int == decomposition_edge_seq(
            subtasks@,
            subtasks@.len() as int,
        )[k].0 && r@[k].1 as int == decomposition_edge_seq(subtasks@, subtasks@.len() as int)[k].1,
{
    let ghost ids = subtask_ids(subtasks@);
    let mut r: Vec<(usize, usize)> = Vec::new();
    let mut s: usize = 0;
    while s < subtasks.len()
        invariant
            s <= subtasks@.len(),
            ids == subtask_ids(subtasks@),
            r@.len() == decomposition_edge_seq(subtasks@, s as int).len(),
            forall|k: int| 0 <= k < r@.len() ==> (#[trigger] r@[k]).0 as int == decomposition_edge_seq(
                subtasks@,
                s as int,
            )[k].0 && r@[k].1 as int == decomposition_edge_seq(subtasks@, s as int)[k].1,
        decreases subtasks@.len() - s,
    {
        let from = match find_last_id(subtasks, subtasks[s].id.as_str()) {
            Some(c) => c,
            None => s,
        };
        assert(ids[s as int] == subtasks@[s as int].id@);
        let deps = &subtasks[s].depend_on;
        let ghost base = r@;
        let ghost prefix = decomposition_edge_seq(subtasks@, s as int);
        let mut d: usize = 0;
        while d < deps.len()
            invariant
                d <= deps@.len(),
                deps@ == subtasks@[s as int].depend_on@,
                ids == subtask_ids(subtasks@),
                base.len() == prefix.len(),
                forall|k: int| 0 <= k < base.len() ==> (#[trigger] base[k]).0 as int == prefix[k].0 && base[k].1 as int
                    == prefix[k].1,
                r@.len() == base.len() + dep_edges(ids, from as int, deps@, d as int).len(),
                forall|k: int| 0 <= k < base.len() ==> #[trigger] r@[k] == base[k],
                forall|k: int|
                    0 <= k < dep_edges(ids, from as int, deps@, d as int).len() ==> (#[trigger] r@[base.len() + k]).0 as int
                        == dep_edges(ids, from as int, deps@, d as int)[k].0 && r@[base.len() + k].1 as int == dep_edges(
                        ids,
                        from as int,
                        deps@,
                        d as int,
                    )[k].1,
            decreases deps@.len() - d,
        {
            match find_last_id(subtasks, deps[d].as_str()) {
                Some(t) => {
                    r.push((from, t));
                },
                None => {},
            }
            d += 1;
        }
        proof {
            let added = dep_edges(ids, from as int, deps@, deps@.len() as int);
            let next = decomposition_edge_seq(subtasks@, s + 1);
            assert(next == prefix + added);
            assert forall|k: int| 0 <= k < r@.len() implies (#[trigger] r@[k]).0 as int == next[k].0 && r@[k].1 as int
                == next[k].1 by {
                if k < base.len() {
                    assert(r@[k] == base[k]);
                } else {
                    assert(r@[base.len() + (k - base.len())] == r@[k]);
                }
            }
        }
        s += 1;
    }
    r
}

} // verus!
