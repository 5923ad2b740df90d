//! Running an orchestrated plan: which agent takes a task, the prompt a
//! task is sent with once its dependencies are done, and how a task's
//! output is gathered from the agent's events. Dispatching the messages
//! and receiving the events are the caller's part.
use vstd::prelude::*;
use crate::agent::{AgentEvent, AgentId, AgentInfo};
use crate::synthesis::joined_with;
use crate::text::str_eq;

verus! {

/// An agent that can take a task of `role`: it has the role, no current
/// task, and was not already given a task of this plan.
pub open spec fn reusable(a: AgentInfo, role: Seq<char>, reserved: Seq<AgentId>) -> bool {
    a.role@ == role && a.current_task is None && !reserved.contains(a.id)
}

/// The first agent of the list that can take the task, if any; otherwise
/// a new agent is created for it.
pub open spec fn reusable_agent_of(agents: Seq<AgentInfo>, role: Seq<char>, reserved: Seq<AgentId>) -> Option<AgentId> {
    if exists|i: int| 0 <= i < agents.len() && reusable(#[trigger] agents[i], role, reserved) {
        let i = choose|i: int|
            0 <= i < agents.len() && reusable(#[trigger] agents[i], role, reserved) && forall|k: int|
                0 <= k < i ==> !reusable(#[trigger] agents[k], role, reserved);
        Some(agents[i].id)
    } else {
        None
    }
}

fn is_reserved(reserved: &[AgentId], id: AgentId) -> (b: bool)
    ensures
        b == reserved@.contains(id),
{
    let mut i: usize = 0;
    while i < reserved.len()
        invariant
            i <= reserved@.len(),
            forall|k: int| 0 <= k < i ==> reserved@[k] != id,
        decreases reserved@.len() - i,
    {
        if reserved[i] == id {
            assert(reserved@[i as int] == id);
            return true;
        }
        i += 1;
    }
    false
}

/// The agent that takes a task of `role`, where one can.
pub fn reusable_agent(agents: &[AgentInfo], role: &str, reserved: &[AgentId]) -> (r: Option<AgentId>)
    ensures
        r == reusable_agent_of(agents@, role@, reserved@),
{
    let mut i: usize = 0;
    while i < agents.len()
        invariant
            i <= agents@.len(),
            forall|k: int| 0 <= k < i ==> !reusable(#[trigger] agents@[k], role@, reserved@),
        decreases agents@.len() - i,
    {
        let a = &agents[i];
        if str_eq(a.role.as_str(), role) && a.current_task.is_none() && !is_reserved(reserved, a.id) {
            proof {
                assert(reusable(agents@[i as int], role@, reserved@));
                let j = choose|j: int|
                    0 <= j < agents@.len() && reusable(#[trigger] agents@[j], role@, reserved@) && forall|k: int|
                        0 <= k < j ==> !reusable(#[trigger] agents@[k], role@, reserved@);
                if j < i {
                    assert(!reusable(agents@[j], role@, reserved@));
                }
                if j > i {
                    assert(!reusable(agents@[i as int], role@, reserved@));
                }
            }
            return Some(a.id);
        }
        i += 1;
    }
    None
}

/// The result recorded for task `id`: the last one, as a map keyed by id
/// keeps it.
pub open spec fn result_for(results: Seq<(String, String)>, id: Seq<char>) -> Option<Seq<char>>
    decreases results.len(),
{
    if results.len() == 0 {
        None
    } else if results.last().0@ == id {
        Some(results.last().1@)
    } else {
        result_for(results.drop_last(), id)
    }
}

/// The context parts for the first `k` dependencies: `[id]` and the result,
/// for each dependency with a recorded result.
pub open spec fn context_parts(deps: Seq<String>, results: Seq<(String, String)>, k: int) -> Seq<Seq<char>>
    decreases k,
{
    if k <= 0 {
        Seq::empty()
    } else {
        let prev = context_parts(deps, results, k - 1);
        match result_for(results, deps[k - 1]@) {
            Some(r) => prev.push("["@ + deps[k - 1]@ + "]\n"@ + r),
            None => prev,
        }
    }
}

/// The prompt a task is sent with: the task alone, or, where it has
/// dependencies, followed by the results recorded for them.
pub open spec fn task_prompt_text(task: Seq<char>, deps: Seq<String>, results: Seq<(String, String)>) -> Seq<char> {
    if deps.len() == 0 {
        task
    } else {
        task + "\n\nDependency results:\n"@ + joined_with(context_parts(deps, results, deps.len() as int), "\n\n"@)
    }
}

fn find_result(results: &[(String, String)], id: &str) -> (r: Option<String>)
    ensures
        match r {
            Some(s) => result_for(results@, id@) == Some(s@),
            None => result_for(results@, id@) is None,
        },
{
    let mut i: usize = results.len();
    assert(results@.subrange(0, i as int) =~= results@);
    while i > 0
        invariant
            i <= results@.len(),
            result_for(results@, id@) == result_for(results@.subrange(0, i as int), id@),
        decreases i,
    {
        let ghost pre = results@.subrange(0, i as int);
        assert(pre.drop_last() =~= results@.subrange(0, i - 1));
        if str_eq(results[i - 1].0.as_str(), id) {
            return Some(results[i - 1].1.clone());
        }
        i -= 1;
    }
    None
}

/// The prompt for a task whose dependencies have finished with `results`
/// (task id and output, in the order they came).
pub fn task_prompt(task: &str, depend_on: &[String], results: &[(String, String)]) -> (s: String)
    ensures
        s@ == task_prompt_text(task@, depend_on@, results@),
{
    if depend_on.len() == 0 {
        return String::from_str(task);
    }
    let mut context = String::new();
    let mut count: usize = 0;
    let mut k: usize = 0;
    while k < depend_on.len()
        invariant
            k <= depend_on@.len(),
            count == context_parts(depend_on@, results@, k as int).len(),
            count <= k,
            context@ == joined_with(context_parts(depend_on@, results@, k as int), "\n\n"@),
        decreases depend_on@.len() - k,
    {
        let ghost parts = context_parts(depend_on@, results@, k as int);
        match find_result(results, depend_on[k].as_str()) {
            Some(r) => {
                if count > 0 {
                    context.append("\n\n");
                }
                context.append("[");
                context.append(depend_on[k].as_str());
                context.append("]\n");
                context.append(r.as_str());
                proof {
                    let next = context_parts(depend_on@, results@, k + 1);
                    assert(next == parts.push("["@ + depend_on@[k as int]@ + "]\n"@ + r@));
                    assert(next.drop_last() =~= parts);
                    if count == 0 {
                        assert(parts.len() == 0);
                        assert(context@ =~= next[0]);
                    } else {
                        assert(context@ =~= joined_with(parts, "\n\n"@) + "\n\n"@ + next.last());
                    }
                }
                count += 1;
            },
            None => {},
        }
        k += 1;
    }
    let mut s = String::from_str(task);
    s.append("\n\nDependency results:\n");
    s.append(context.as_str());
    s
}

/// What an agent's event stream delivered while a task waits for it.
#[derive(Debug, Clone)]
pub enum WatchEvent {
    Event(AgentEvent),
    /// The stream skipped this many events.
    Lagged(u64),
    /// The stream ended.
    Closed,
}

/// Where a task stands after an event: text adds to its output, the end of
/// the turn finishes it, an error or a broken stream fails it, anything
/// else changes nothing.
pub open spec fn watch_of(task_id: Seq<char>, output: Seq<char>, e: WatchEvent) -> (Seq<char>, Option<Result<Seq<char>, Seq<char>>>) {
    match e {
        WatchEvent::Event(AgentEvent::Text(t)) => (output + t@, None),
        WatchEvent::Event(AgentEvent::TurnComplete) => (output, Some(Ok(output))),
        WatchEvent::Event(AgentEvent::Error(err)) => (output, Some(Err("task '"@ + task_id + "' failed: "@ + err@))),
        WatchEvent::Event(_) => (output, None),
        WatchEvent::Lagged(n) => (
            output,
            Some(Err("task '"@ + task_id + "' event stream lagged by "@ + crate::text::decimal(n as nat) + " messages"@)),
        ),
        WatchEvent::Closed => (output, Some(Err("task '"@ + task_id + "' agent stopped unexpectedly"@))),
    }
}

/// Take one event for the task `task_id`: `output` gathers its text; the
/// result is the task's output once it finished, or why it failed.
pub fn watch_step(task_id: &str, output: &mut String, e: WatchEvent) -> (r: Option<Result<String, String>>)
    ensures
        final(output)@ == watch_of(task_id@, old(output)@, e).0,
        match r {
            Some(Ok(s)) => watch_of(task_id@, old(output)@, e).1 == Some(Ok::<Seq<char>, Seq<char>>(s@)),
            Some(Err(s)) => watch_of(task_id@, old(output)@, e).1 == Some(Err::<Seq<char>, Seq<char>>(s@)),
            None => watch_of(task_id@, old(output)@, e).1 is None,
        },
{
    match e {
        WatchEvent::Event(AgentEvent::Text(t)) => {
            output.append(t.as_str());
            None
        },
        WatchEvent::Event(AgentEvent::TurnComplete) => Some(Ok(output.clone())),
        WatchEvent::Event(AgentEvent::Error(err)) => {
            let mut m = String::from_str("task '");
            m.append(task_id);
            m.append("' failed: ");
            m.append(err.as_str());
            Some(Err(m))
        },
        WatchEvent::Event(_) => None,
        WatchEvent::Lagged(n) => {
            let mut m = String::from_str("task '");
            m.append(task_id);
            m.append("' event stream lagged by ");
            m.append(crate::text::decimal_u64(n).as_str());
            m.append(" messages");
            Some(Err(m))
        },
        WatchEvent::Closed => {
            let mut m = String::from_str("task '");
            m.append(task_id);
            m.append("' agent stopped unexpectedly");
            Some(Err(m))
        },
    }
}

/// The id after `n` for a new agent; the counter wraps like an atomic add.
pub open spec fn next_agent_id(n: AgentId) -> AgentId {
    if n == u32::MAX {
        0
    } else {
        (n + 1) as u32
    }
}

/// The agents for the first `k` tasks of a plan, in the order the tasks are
/// dispatched (wave by wave), with the id counter after them. Each task
/// takes the first idle agent of its role not yet given a task of this
/// plan, or else a new agent with the next id; every agent given a task is
/// then kept from the rest of the plan.
pub open spec fn assignment(agents: Seq<AgentInfo>, roles: Seq<Seq<char>>, next: AgentId, k: int) -> (Seq<AgentId>, AgentId)
    decreases k,
{
    if k <= 0 {
        (Seq::empty(), next)
    } else {
        let (ids, n) = assignment(agents, roles, next, k - 1);
        match reusable_agent_of(agents, roles[k - 1], ids) {
            Some(a) => (ids.push(a), n),
            None => (ids.push(n), next_agent_id(n)),
        }
    }
}

/// The agents that take a plan's tasks, whose roles are given in dispatch
/// order, and the id counter after the new agents were numbered.
pub fn assign_agents(agents: &[AgentInfo], roles: &[String], next_id: AgentId) -> (r: (Vec<AgentId>, AgentId))
    ensures
        (r.0@, r.1) == assignment(agents@, roles@.map_values(|s: String| s@), next_id, roles@.len() as int),
{
    let ghost rv = roles@.map_values(|s: String| s@);
    let mut ids: Vec<AgentId> = Vec::new();
    let mut next = next_id;
    let mut k: usize = 0;
    while k < roles.len()
        invariant
            k <= roles@.len(),
            rv == roles@.map_values(|s: String| s@),
            (ids@, next) == assignment(agents@, rv, next_id, k as int),
        decreases roles@.len() - k,
    {
        assert(rv[k as int] == roles@[k as int]@);
        match reusable_agent(agents, roles[k].as_str(), ids.as_slice()) {
            Some(a) => ids.push(a),
            None => {
                ids.push(next);
                next = if next == u32::MAX {
                    0
                } else {
                    next + 1
                };
            },
        }
        k += 1;
    }
    (ids, next)
}

} // verus!
