//! Planning for the `orchestrate` tool: validate a DAG of tasks, group it
//! into waves and find its critical path. Dispatching the waves to agents
//! is the runtime's part.
use vstd::prelude::*;
use crate::text::{
    chars_of, contains_sub, is_substring, keep_long_words, keep_nonempty_words, long_words,
    nonempty_words, spec_lowercase, split_pieces, split_words, to_lowercase, words_view,
};
use crate::schedule::{
    critical_path, dep_graph, has_cycle, is_critical_chain, is_last_deepest, is_leveling,
    schedule_waves, waves_match_levels,
};


verus! {

pub type AgentId = u32;

/// One task of an orchestration request.
#[derive(Debug, Clone)]
pub struct TaskDef {
    pub id: String,
    pub role: String,
    pub task: String,
    pub depend_on: Vec<String>,
}

/// The arguments of the `orchestrate` tool.
#[derive(Debug)]
pub struct OrchestrateArgs {
    pub tasks: Vec<TaskDef>,
}

/// Errors of the agent workflow tools.
#[derive(Debug)]
pub enum ToolError {
    AgentNotFound(AgentId),
    RoleNotFound { requested: String, suggestions: Vec<String>, available: Vec<String> },
    BudgetExhausted(AgentId),
    Orchestrate(String),
}

/// Read-only view of the role registry.
pub trait RoleChecker {
    /// Whether a role is registered under this id. A registry that says
    /// nothing more leaves it unknown.
    closed spec fn has_role(&self, role: Seq<char>) -> bool {
        arbitrary()
    }

    /// The names of the registered roles, in the order they are listed. A
    /// registry that says nothing more leaves them unknown.
    closed spec fn role_names(&self) -> Seq<Seq<char>> {
        arbitrary()
    }

    fn role_exists(&self, role: &str) -> (b: bool)
        ensures
            b == self.has_role(role@),
    ;

    fn list_roles(&self) -> (r: Vec<String>)
        ensures
            r@.map_values(|s: String| s@) == self.role_names(),
    ;
}

/// `t` is the first task whose role is not registered.
pub open spec fn first_missing_role<R: RoleChecker>(roles: &R, tasks: Seq<TaskDef>, t: int) -> bool {
    &&& 0 <= t < tasks.len()
    &&& !roles.has_role(tasks[t].role@)
    &&& forall|k: int| 0 <= k < t ==> roles.has_role(#[trigger] tasks[k].role@)
}

/// The waves, the wave of each task and the critical path of a task list.
#[derive(Debug)]
pub struct TaskPlan {
    pub waves: Vec<Vec<usize>>,
    pub levels: Vec<usize>,
    pub critical_indices: Vec<usize>,
    pub critical_path: Vec<String>,
}

pub open spec fn task_ids(tasks: Seq<TaskDef>) -> Seq<Seq<char>> {
    tasks.map_values(|t: TaskDef| t.id@)
}

/// Task `i` repeats the id of an earlier task.
pub open spec fn dup_at(ids: Seq<Seq<char>>, i: int) -> bool {
    exists|j: int| 0 <= j < i && ids[j] == ids[i]
}

/// Some task repeats the id of an earlier one.
pub open spec fn has_duplicate(ids: Seq<Seq<char>>) -> bool {
    exists|i: int| 0 <= i < ids.len() && dup_at(ids, i)
}

/// Dependency `k` of task `t` names no task.
pub open spec fn unknown_at(tasks: Seq<TaskDef>, t: int, k: int) -> bool {
    !task_ids(tasks).contains(tasks[t].depend_on@[k]@)
}

/// Some dependency names no task.
pub open spec fn has_unknown(tasks: Seq<TaskDef>) -> bool {
    exists|t: int, k: int| 0 <= t < tasks.len() && 0 <= k < tasks[t].depend_on@.len() && unknown_at(tasks, t, k)
}

/// No dependency before `(t, k)` (task by task, entry by entry) names no task.
pub open spec fn known_before(tasks: Seq<TaskDef>, t: int, k: int) -> bool {
    &&& forall|t2: int, k2: int|
        0 <= t2 < t && 0 <= k2 < tasks[t2].depend_on@.len() ==> !#[trigger] unknown_at(tasks, t2, k2)
    &&& forall|k2: int| 0 <= k2 < k ==> !#[trigger] unknown_at(tasks, t, k2)
}

/// The position of the task with id `x`.
pub open spec fn id_index(ids: Seq<Seq<char>>, x: Seq<char>) -> int {
    choose|j: int| 0 <= j < ids.len() && ids[j] == x
}

/// The dependency graph over task positions.
pub open spec fn task_graph(tasks: Seq<TaskDef>) -> Seq<Seq<usize>> {
    Seq::new(
        tasks.len(),
        |i: int|
            Seq::new(
                tasks[i].depend_on@.len(),
                |k: int| id_index(task_ids(tasks), tasks[i].depend_on@[k]@) as usize,
            ),
    )
}

/// `plan` is the schedule of `tasks`: its waves and levels match, and its
/// critical path is the chain of deepest dependencies ending at the last
/// task of greatest level, given by position and by id.
pub open spec fn plan_of(tasks: Seq<TaskDef>, plan: TaskPlan) -> bool {
    let g = task_graph(tasks);
    let lv = plan.levels@.map_values(|x: usize| x as int);
    &&& is_leveling(g, lv)
    &&& waves_match_levels(plan.waves@.map_values(|v: Vec<usize>| v@), lv)
    &&& is_last_deepest(lv, plan.critical_indices@.last() as int)
    &&& is_critical_chain(g, lv, plan.critical_indices@)
    &&& plan.critical_path@.len() == plan.critical_indices@.len()
    &&& forall|k: int|
        0 <= k < plan.critical_path@.len() ==> #[trigger] plan.critical_path@[k]@ == task_ids(
            tasks,
        )[plan.critical_indices@[k] as int]
}

/// The position of the task whose id is `x`, if any.
fn find_task(tasks: &Vec<TaskDef>, x: &String) -> (r: Option<usize>)
    ensures
        r is None <==> !task_ids(tasks@).contains(x@),
        r matches Some(j) ==> j < tasks@.len() && tasks@[j as int].id@ == x@,
{
    let mut j: usize = 0;
    while j < tasks.len()
        invariant
            j <= tasks@.len(),
            forall|m: int| 0 <= m < j ==> #[trigger] tasks@[m].id@ != x@,
        decreases tasks@.len() - j,
    {
        if tasks[j].id == *x {
            proof {
                assert(task_ids(tasks@)[j as int] == x@);
            }
            return Some(j);
        }
        j += 1;
    }
    proof {
        if task_ids(tasks@).contains(x@) {
            let m = choose|m: int| 0 <= m < task_ids(tasks@).len() && task_ids(tasks@)[m] == x@;
            assert(tasks@[m].id@ == x@);
        }
    }
    None
}

/// The first task whose id repeats an earlier one.
fn first_duplicate(tasks: &Vec<TaskDef>) -> (r: Option<usize>)
    ensures
        r is None <==> !has_duplicate(task_ids(tasks@)),
        r matches Some(i) ==> i < tasks@.len() && dup_at(task_ids(tasks@), i as int) && (forall|i2: int|
            0 <= i2 < i ==> !#[trigger] dup_at(task_ids(tasks@), i2)),
{
    let n = tasks.len();
    let ghost ids = task_ids(tasks@);
    let mut i: usize = 0;
    while i < n
        invariant
            n == tasks@.len(),
            ids == task_ids(tasks@),
            i <= n,
            forall|i2: int| 0 <= i2 < i ==> !#[trigger] dup_at(ids, i2),
        decreases n - i,
    {
        let mut j: usize = 0;
        while j < i
            invariant
                n == tasks@.len(),
                ids == task_ids(tasks@),
                i < n,
                j <= i,
                forall|i2: int| 0 <= i2 < i ==> !#[trigger] dup_at(ids, i2),
                forall|j2: int| 0 <= j2 < j ==> #[trigger] ids[j2] != ids[i as int],
            decreases i - j,
        {
            if tasks[j].id == tasks[i].id {
                proof {
                    assert(ids[j as int] == ids[i as int]);
                    assert(dup_at(ids, i as int));
                    assert(has_duplicate(ids));
                }
                return Some(i);
            }
            j += 1;
        }
        i += 1;
    }
    None
}

/// Replace each dependency id by the position of its task; `Err((t, k))`
/// names the first dependency entry that names no task.
fn resolve_deps(tasks: &Vec<TaskDef>) -> (r: Result<Vec<Vec<usize>>, (usize, usize)>)
    requires
        !has_duplicate(task_ids(tasks@)),
    ensures
        r matches Ok(deps) ==> !has_unknown(tasks@) && dep_graph(deps@) == task_graph(tasks@),
        r matches Err((t, k)) ==> t < tasks@.len() && k < tasks@[t as int].depend_on@.len()
            && unknown_at(tasks@, t as int, k as int) && known_before(tasks@, t as int, k as int),
{
    let n = tasks.len();
    let ghost ids = task_ids(tasks@);
    let mut deps: Vec<Vec<usize>> = Vec::new();
    let mut t: usize = 0;
    while t < n
        invariant
            n == tasks@.len(),
            ids == task_ids(tasks@),
            !has_duplicate(ids),
            t <= n,
            deps@.len() == t,
            known_before(tasks@, t as int, 0),
            forall|a: int| 0 <= a < t ==> #[trigger] deps@[a]@ == task_graph(tasks@)[a],
        decreases n - t,
    {
        let row_len = tasks[t].depend_on.len();
        let mut row: Vec<usize> = Vec::new();
        let mut k: usize = 0;
        while k < row_len
            invariant
                n == tasks@.len(),
                ids == task_ids(tasks@),
                !has_duplicate(ids),
                t < n,
                row_len == tasks@[t as int].depend_on@.len(),
                k <= row_len,
                row@.len() == k,
                known_before(tasks@, t as int, k as int),
                forall|b: int| 0 <= b < k ==> #[trigger] row@[b] == task_graph(tasks@)[t as int][b],
            decreases row_len - k,
        {
            match find_task(tasks, &tasks[t].depend_on[k]) {
                Some(j) => {
                    proof {
                        let x = tasks@[t as int].depend_on@[k as int]@;
                        assert(ids[j as int] == x);
                        assert(ids.contains(x));
                        let c = id_index(ids, x);
                        assert(0 <= c < ids.len() && ids[c] == x);
                        if c != j {
                            if c < j {
                                assert(dup_at(ids, j as int));
                            } else {
                                assert(dup_at(ids, c));
                            }
                        }
                    }
                    row.push(j);
                },
                None => {
                    return Err((t, k));
                },
            }
            k += 1;
        }
        proof {
            assert(row@ =~= task_graph(tasks@)[t as int]);
        }
        deps.push(row);
        t += 1;
    }
    proof {
        assert(dep_graph(deps@) =~= task_graph(tasks@));
    }
    Ok(deps)
}

/// What scheduling `tasks` gives: the error for the first problem found,
/// else the plan.
pub open spec fn plan_result(tasks: Seq<TaskDef>, r: Result<TaskPlan, ToolError>) -> bool {
    &&& (tasks.len() == 0 ==> (r matches Err(ToolError::Orchestrate(m)) && m@ == "task list is empty"@))
    &&& (tasks.len() > 0 && has_duplicate(task_ids(tasks)) ==> exists|i: int|
            0 <= i < tasks.len() && dup_at(task_ids(tasks), i) && (forall|i2: int|
                0 <= i2 < i ==> !#[trigger] dup_at(task_ids(tasks), i2)) && (r matches Err(
                ToolError::Orchestrate(m),
            ) && m@ == "duplicate task id: "@ + tasks[i].id@))
    &&& (tasks.len() > 0 && !has_duplicate(task_ids(tasks)) && has_unknown(tasks) ==> exists|t: int, k: int|
            0 <= t < tasks.len() && 0 <= k < tasks[t].depend_on@.len() && unknown_at(tasks, t, k)
                && known_before(tasks, t, k) && (r matches Err(ToolError::Orchestrate(m)) && m@
                == "task '"@ + tasks[t].id@ + "' depends on unknown task '"@
                + tasks[t].depend_on@[k]@ + "'"@))
    &&& (tasks.len() > 0 && !has_duplicate(task_ids(tasks)) && !has_unknown(tasks) && has_cycle(
        task_graph(tasks),
    ) ==> (r matches Err(ToolError::Orchestrate(m)) && m@
        == "dependency cycle detected \u{2014} not all tasks could be scheduled"@))
    &&& (tasks.len() > 0 && !has_duplicate(task_ids(tasks)) && !has_unknown(tasks) && !has_cycle(
        task_graph(tasks),
    ) ==> (r matches Ok(plan) && plan_of(tasks, plan)))
}

/// Schedule a task list whose roles are already known to exist.
///
/// Errors, checked in this order: an empty list; an id that repeats an
/// earlier one (the first such task is named); a dependency that names no
/// task (the first such entry is named); a dependency cycle. Otherwise the
/// plan of `plan_of`.
pub fn plan_waves(tasks: &Vec<TaskDef>) -> (r: Result<TaskPlan, ToolError>)
    ensures
        plan_result(tasks@, r),
{
    let n = tasks.len();
    if n == 0 {
        return Err(ToolError::Orchestrate(String::from_str("task list is empty")));
    }
    let ghost ids = task_ids(tasks@);
    if let Some(i) = first_duplicate(tasks) {
        let mut msg = String::from_str("duplicate task id: ");
        msg.append(tasks[i].id.as_str());
        return Err(ToolError::Orchestrate(msg));
    }
    let deps = match resolve_deps(tasks) {
        Ok(d) => d,
        Err((t, k)) => {
            let mut msg = String::from_str("task '");
            msg.append(tasks[t].id.as_str());
            msg.append("' depends on unknown task '");
            msg.append(tasks[t].depend_on[k].as_str());
            msg.append("'");
            return Err(ToolError::Orchestrate(msg));
        },
    };
    let ghost g = task_graph(tasks@);
    proof {
        assert(dep_graph(deps@) =~= g);
        assert(!has_unknown(tasks@));
        assert forall|a: int, b: int| 0 <= a < g.len() && 0 <= b < g[a].len() implies #[trigger] g[a][b] < g.len() by {
            let x = tasks@[a].depend_on@[b]@;
            assert(!unknown_at(tasks@, a, b));
            assert(ids.contains(x));
            let c = id_index(ids, x);
        }
    }
    match schedule_waves(&deps) {
        None => Err(
            ToolError::Orchestrate(
                String::from_str("dependency cycle detected \u{2014} not all tasks could be scheduled"),
            ),
        ),
        Some((waves, levels)) => {
            let critical_indices = critical_path(&deps, &levels);
            let mut critical_path: Vec<String> = Vec::new();
            let mut c: usize = 0;
            while c < critical_indices.len()
                invariant
                    n == tasks@.len(),
                    ids == task_ids(tasks@),
                    c <= critical_indices@.len(),
                    critical_path@.len() == c,
                    forall|k: int| 0 <= k < critical_indices@.len() ==> #[trigger] critical_indices@[k] < n,
                    forall|k: int| 0 <= k < c ==> #[trigger] critical_path@[k]@ == ids[critical_indices@[k] as int],
                decreases critical_indices@.len() - c,
            {
                critical_path.push(tasks[critical_indices[c]].id.clone());
                c += 1;
            }
            Ok(TaskPlan { waves, levels, critical_indices, critical_path })
        },
    }
}

/// `rw` is contained in one of `name_words`, or contains one of them.
pub open spec fn word_overlaps(rw: Seq<char>, name_words: Seq<Seq<char>>) -> bool {
    exists|j: int|
        0 <= j < name_words.len() && (is_substring(rw, #[trigger] name_words[j]) || is_substring(
            name_words[j],
            rw,
        ))
}

/// How many of `req` overlap one of `name_words`.
pub open spec fn overlap_count(req: Seq<Seq<char>>, name_words: Seq<Seq<char>>) -> nat
    decreases req.len(),
{
    if req.len() == 0 {
        0
    } else {
        overlap_count(req.drop_last(), name_words) + (if word_overlaps(req.last(), name_words) {
            1nat
        } else {
            0nat
        })
    }
}

/// The lowercase words of a requested role name that are longer than two bytes.
pub open spec fn requested_words(requested: Seq<char>) -> Seq<Seq<char>> {
    long_words(split_pieces(spec_lowercase(requested)))
}

/// The nonempty lowercase words of a role name.
pub open spec fn name_words(name: Seq<char>) -> Seq<Seq<char>> {
    nonempty_words(split_pieces(spec_lowercase(name)))
}

/// How well `name` matches the requested role name.
pub open spec fn role_score(requested: Seq<char>, name: Seq<char>) -> nat {
    overlap_count(requested_words(requested), name_words(name))
}

/// The score of every available role name.
pub open spec fn role_scores(requested: Seq<char>, names: Seq<String>) -> Seq<nat> {
    Seq::new(names.len(), |i: int| role_score(requested, names[i]@))
}

/// `p` lists, once each, the positions of positive score, by descending
/// score and, among equal scores, by position.
pub open spec fn ranked(scores: Seq<nat>, p: Seq<usize>) -> bool {
    &&& p.no_duplicates()
    &&& forall|k: int| 0 <= k < p.len() ==> #[trigger] p[k] < scores.len() && scores[p[k] as int] > 0
    &&& forall|i: int| 0 <= i < scores.len() && scores[i] > 0 ==> #[trigger] p.contains(i as usize)
    &&& forall|a: int, b: int|
        0 <= a < b < p.len() ==> scores[#[trigger] p[a] as int] > scores[#[trigger] p[b] as int] || (
        scores[p[a] as int] == scores[p[b] as int] && p[a] < p[b])
}

fn words_overlap(rw: &Vec<char>, name_words: &Vec<Vec<char>>) -> (b: bool)
    ensures
        b == word_overlaps(rw@, words_view(name_words@)),
{
    let mut j: usize = 0;
    while j < name_words.len()
        invariant
            j <= name_words@.len(),
            forall|m: int|
                0 <= m < j ==> !(is_substring(rw@, #[trigger] words_view(name_words@)[m]) || is_substring(
                    words_view(name_words@)[m],
                    rw@,
                )),
        decreases name_words@.len() - j,
    {
        if contains_sub(name_words[j].as_slice(), rw.as_slice()) || contains_sub(rw.as_slice(), name_words[j].as_slice()) {
            proof {
                assert(words_view(name_words@)[j as int] == name_words@[j as int]@);
            }
            return true;
        }
        j += 1;
    }
    false
}

fn count_overlaps(req: &Vec<Vec<char>>, name_words: &Vec<Vec<char>>) -> (c: usize)
    ensures
        c == overlap_count(words_view(req@), words_view(name_words@)),
{
    let mut c: usize = 0;
    let mut i: usize = 0;
    while i < req.len()
        invariant
            i <= req@.len(),
            c <= i,
            c == overlap_count(words_view(req@).take(i as int), words_view(name_words@)),
        decreases req@.len() - i,
    {
        proof {
            assert(words_view(req@).take(i + 1).drop_last() =~= words_view(req@).take(i as int));
            assert(words_view(req@).take(i + 1).last() == req@[i as int]@);
        }
        if words_overlap(&req[i], name_words) {
            c += 1;
        }
        i += 1;
    }
    assert(words_view(req@).take(req@.len() as int) =~= words_view(req@));
    c
}

/// `r` is what `suggest_roles` answers for `requested` among `available`.
pub open spec fn suggestions_for(requested: Seq<char>, available: Seq<String>, r: Seq<String>) -> bool {
    &&& (requested_words(requested).len() == 0 ==> r.len() == available.len() && forall|k: int|
            0 <= k < r.len() ==> #[trigger] r[k]@ == available[k]@)
    &&& (requested_words(requested).len() > 0 ==> exists|p: Seq<usize>|
            #[trigger] ranked(role_scores(requested, available), p)
                && r.len() == (if p.len() < 3 {
                p.len()
            } else {
                3
            }) && forall|k: int| 0 <= k < r.len() ==> #[trigger] r[k]@ == available[p[k] as int]@)
}

/// Role names to suggest for a role that does not exist: those that share
/// a word with it, best first, at most three. When the requested name has
/// no word longer than two bytes, every available role.
pub fn suggest_roles(requested: &str, available: &[String]) -> (r: Vec<String>)
    ensures
        suggestions_for(requested@, available@, r@),
{
    let req_lower = to_lowercase(requested);
    let req_chars = chars_of(req_lower.as_str());
    let pieces = split_words(req_chars.as_slice());
    let req_words = keep_long_words(&pieces);
    let n = available.len();
    if req_words.len() == 0 {
        let mut all: Vec<String> = Vec::new();
        let mut i: usize = 0;
        while i < n
            invariant
                n == available@.len(),
                i <= n,
                all@.len() == i,
                forall|k: int| 0 <= k < i ==> #[trigger] all@[k]@ == available@[k]@,
            decreases n - i,
        {
            all.push(available[i].clone());
            i += 1;
        }
        return all;
    }
    let ghost sc = role_scores(requested@, available@);
    let mut scores: Vec<usize> = Vec::new();
    let mut i: usize = 0;
    while i < n
        invariant
            n == available@.len(),
            sc == role_scores(requested@, available@),
            words_view(req_words@) == requested_words(requested@),
            i <= n,
            scores@.len() == i,
            forall|k: int| 0 <= k < i ==> #[trigger] scores@[k] as nat == sc[k],
        decreases n - i,
    {
        let lower = to_lowercase(available[i].as_str());
        let cs = chars_of(lower.as_str());
        let all_words = split_words(cs.as_slice());
        let words = keep_nonempty_words(&all_words);
        let c = count_overlaps(&req_words, &words);
        scores.push(c);
        i += 1;
    }
    // Stable insertion by descending score.
    let mut order: Vec<usize> = Vec::new();
    let mut i: usize = 0;
    while i < n
        invariant
            n == available@.len(),
            sc.len() == n,
            scores@.len() == n,
            forall|k: int| 0 <= k < n ==> #[trigger] scores@[k] as nat == sc[k],
            i <= n,
            order@.no_duplicates(),
            forall|k: int| 0 <= k < order@.len() ==> #[trigger] order@[k] < i && sc[order@[k] as int] > 0,
            forall|x: int| 0 <= x < i && sc[x] > 0 ==> #[trigger] order@.contains(x as usize),
            forall|a: int, b: int|
                0 <= a < b < order@.len() ==> sc[#[trigger] order@[a] as int] > sc[#[trigger] order@[b] as int]
                    || (sc[order@[a] as int] == sc[order@[b] as int] && order@[a] < order@[b]),
        decreases n - i,
    {
        let s = scores[i];
        if s > 0 {
            let mut pos: usize = 0;
            while pos < order.len() && scores[order[pos]] >= s
                invariant
                    n == available@.len(),
                    scores@.len() == n,
                    pos <= order@.len(),
                    forall|k: int| 0 <= k < order@.len() ==> #[trigger] order@[k] < i,
                    i < n,
                    forall|a: int| 0 <= a < pos ==> scores@[#[trigger] order@[a] as int] >= s,
                decreases order@.len() - pos,
            {
                pos += 1;
            }
            let ghost before = order@;
            proof {
                assert forall|b: int| pos <= b < before.len() implies sc[#[trigger] before[b] as int] < s as nat by {
                    assert(scores@[before[pos as int] as int] < s);
                    if b > pos {
                        assert(sc[before[pos as int] as int] >= sc[before[b] as int]);
                    }
                }
            }
            order.insert(pos, i);
            proof {
                assert(!before.contains(i)) by {
                    if before.contains(i) {
                        let t = choose|t: int| 0 <= t < before.len() && before[t] == i;
                        assert(before[t] < i);
                    }
                }
                assert forall|a: int, b: int| 0 <= a < b < order@.len() implies order@[a] != order@[b] by {
                    if a < pos && b > pos {
                        assert(order@[b] == before[b - 1]);
                    } else if a > pos {
                        assert(order@[a] == before[a - 1]);
                        assert(order@[b] == before[b - 1]);
                    } else if a == pos {
                        assert(order@[b] == before[b - 1]);
                    }
                }
                assert forall|x: int| 0 <= x < i + 1 && sc[x] > 0 implies #[trigger] order@.contains(x as usize) by {
                    if x == i {
                        assert(order@[pos as int] == i);
                    } else {
                        assert(before.contains(x as usize));
                        let t = choose|t: int| 0 <= t < before.len() && before[t] == x as usize;
                        if t < pos {
                            assert(order@[t] == x as usize);
                        } else {
                            assert(order@[t + 1] == x as usize);
                        }
                    }
                }
                assert forall|a: int, b: int|
                    0 <= a < b < order@.len() implies sc[#[trigger] order@[a] as int] > sc[#[trigger] order@[b] as int]
                    || (sc[order@[a] as int] == sc[order@[b] as int] && order@[a] < order@[b]) by {
                    if b < pos {
                    } else if b == pos {
                        assert(scores@[before[a] as int] >= s);
                    } else if a < pos {
                        assert(order@[b] == before[b - 1]);
                    } else if a == pos {
                        assert(order@[b] == before[b - 1]);
                    } else {
                        assert(order@[a] == before[a - 1]);
                        assert(order@[b] == before[b - 1]);
                    }
                }
            }
        } else {
            proof {
                assert forall|x: int| 0 <= x < i + 1 && sc[x] > 0 implies #[trigger] order@.contains(x as usize) by {
                    assert(x != i);
                }
            }
        }
        i += 1;
    }
    let take = if order.len() < 3 {
        order.len()
    } else {
        3
    };
    let mut r: Vec<String> = Vec::new();
    let mut k: usize = 0;
    while k < take
        invariant
            n == available@.len(),
            take <= order@.len(),
            forall|m: int| 0 <= m < order@.len() ==> #[trigger] order@[m] < n,
            k <= take,
            r@.len() == k,
            forall|m: int| 0 <= m < k ==> #[trigger] r@[m]@ == available@[order@[m] as int]@,
        decreases take - k,
    {
        r.push(available[order[k]].clone());
        k += 1;
    }
    proof {
        assert(ranked(sc, order@));
    }
    r
}

/// Plan an `orchestrate` request: an empty list is refused first, then every
/// task's role is checked with `roles` (a missing role is answered with
/// suggestions among the listed roles), then the list is scheduled.
pub fn plan_tasks<R: RoleChecker>(tasks: &Vec<TaskDef>, roles: &R) -> (r: Result<TaskPlan, ToolError>)
    ensures
        tasks@.len() == 0 ==> (r matches Err(ToolError::Orchestrate(m)) && m@ == "task list is empty"@),
        tasks@.len() > 0 && (exists|t: int| first_missing_role(roles, tasks@, t)) ==> ({
            let t = choose|t: int| first_missing_role(roles, tasks@, t);
            r matches Err(ToolError::RoleNotFound { requested, suggestions, available }) && requested@
                == tasks@[t].role@ && available@.map_values(|s: String| s@) == roles.role_names() && suggestions_for(
                requested@,
                available@,
                suggestions@,
            )
        }),
        tasks@.len() > 0 && (forall|t: int| 0 <= t < tasks@.len() ==> roles.has_role(#[trigger] tasks@[t].role@))
            ==> plan_result(tasks@, r),
{
    if tasks.len() == 0 {
        return Err(ToolError::Orchestrate(String::from_str("task list is empty")));
    }
    let available = roles.list_roles();
    let mut t: usize = 0;
    while t < tasks.len()
        invariant
            t <= tasks@.len(),
            available@.map_values(|s: String| s@) == roles.role_names(),
            forall|k: int| 0 <= k < t ==> roles.has_role(#[trigger] tasks@[k].role@),
        decreases tasks@.len() - t,
    {
        if !roles.role_exists(tasks[t].role.as_str()) {
            proof {
                assert(first_missing_role(roles, tasks@, t as int));
                let c = choose|c: int| first_missing_role(roles, tasks@, c);
                if c < t {
                    assert(roles.has_role(tasks@[c].role@));
                }
                if t < c {
                    assert(roles.has_role(tasks@[t as int].role@));
                }
            }
            let suggestions = suggest_roles(tasks[t].role.as_str(), available.as_slice());
            return Err(
                ToolError::RoleNotFound {
                    requested: tasks[t].role.clone(),
                    suggestions,
                    available,
                },
            );
        }
        t += 1;
    }
    plan_waves(tasks)
}

} // verus!
