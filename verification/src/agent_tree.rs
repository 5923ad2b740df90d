//! The agent delegation tree as the terminal shows it: one indented line
//! per agent, depth first, and a short preview of an agent's latest tool
//! calls.
use vstd::prelude::*;
use vstd::string::StringSliceAdditionalSpecFns;
use vstd::utf8::{decode_utf8, encode_utf8, is_char_boundary};
use crate::guard::AgentId;
use crate::file_tools::{byte_slice, str_slice};
use crate::text::{chars_of, push_char, utf8_len};

verus! {

/// Where an agent is in its work.
#[derive(Debug, Clone, Copy, PartialEq, Eq, Structural)]
pub enum AgentStatus {
    Idle,
    Planning,
    AwaitingChildren,
    Aggregating,
    Completed,
    Failed,
}

/// How a tool call went.
#[derive(Debug, Clone, Copy, PartialEq, Eq, Structural)]
pub enum ToolStatus {
    Running,
    Success,
    Error,
}

/// One tool call an agent made.
#[derive(Debug, Clone)]
pub struct ToolCallRecord {
    pub name: String,
    pub args_preview: String,
    pub status: ToolStatus,
    pub error_message: Option<String>,
}

/// What the tree reads of an agent.
#[derive(Debug, Clone)]
pub struct Agent {
    pub id: AgentId,
    pub name: String,
    pub status: AgentStatus,
    pub children: Vec<AgentId>,
    pub tool_trace: Vec<ToolCallRecord>,
}

/// The agents of a pool, in the order they were added.
pub struct AgentPool {
    agents: Vec<Agent>,
}

impl AgentPool {
    pub closed spec fn spec_agents(&self) -> Seq<Agent> {
        self.agents@
    }

    pub fn new() -> (p: Self)
        ensures
            p.spec_agents().len() == 0,
    {
        AgentPool { agents: Vec::new() }
    }

    pub fn add_agent(&mut self, agent: Agent)
        ensures
            final(self).spec_agents() == old(self).spec_agents().push(agent),
    {
        self.agents.push(agent);
    }

    pub fn agents(&self) -> (a: &[Agent])
        ensures
            a@ == self.spec_agents(),
    {
        self.agents.as_slice()
    }
}

/// One line of the tree.
#[derive(Debug, Clone)]
pub struct TreeLine {
    pub agent_id: AgentId,
    pub display_text: String,
    pub status: AgentStatus,
}

pub open spec fn status_tag(s: AgentStatus) -> Seq<char> {
    match s {
        AgentStatus::Idle => "[Idle]"@,
        AgentStatus::Planning => "[Planning]"@,
        AgentStatus::AwaitingChildren => "[Awaiting]"@,
        AgentStatus::Aggregating => "[Aggregating]"@,
        AgentStatus::Completed => "[Completed]"@,
        AgentStatus::Failed => "[Failed]"@,
    }
}

fn status_tag_str(s: AgentStatus) -> (t: &'static str)
    ensures
        t@ == status_tag(s),
{
    match s {
        AgentStatus::Idle => "[Idle]",
        AgentStatus::Planning => "[Planning]",
        AgentStatus::AwaitingChildren => "[Awaiting]",
        AgentStatus::Aggregating => "[Aggregating]",
        AgentStatus::Completed => "[Completed]",
        AgentStatus::Failed => "[Failed]",
    }
}

/// The last agent with id `id` (the one a map built from the pool keeps).
pub open spec fn last_with_id(agents: Seq<Agent>, id: AgentId, i: int) -> bool {
    0 <= i < agents.len() && agents[i].id == id && forall|k: int| i < k < agents.len() ==> agents[k].id != id
}

/// The first agent with id `id`.
pub open spec fn first_with_id(agents: Seq<Agent>, id: AgentId, i: int) -> bool {
    0 <= i < agents.len() && agents[i].id == id && forall|k: int| 0 <= k < i ==> agents[k].id != id
}

pub open spec fn lookup_last(agents: Seq<Agent>, id: AgentId) -> Option<int> {
    if exists|i: int| last_with_id(agents, id, i) {
        Some(choose|i: int| last_with_id(agents, id, i))
    } else {
        None
    }
}

pub open spec fn lookup_first(agents: Seq<Agent>, id: AgentId) -> Option<int> {
    if exists|i: int| first_with_id(agents, id, i) {
        Some(choose|i: int| first_with_id(agents, id, i))
    } else {
        None
    }
}

/// `n` spaces.
pub open spec fn spaces(n: nat) -> Seq<char> {
    Seq::new(n, |i: int| ' ')
}

/// `s` padded with spaces to at least `w` characters (`{:<w}`).
pub open spec fn pad(s: Seq<char>, w: nat) -> Seq<char> {
    if s.len() >= w {
        s
    } else {
        s + spaces((w - s.len()) as nat)
    }
}

/// The line prefix at `depth`: a bullet for the root, else an indent and a
/// branch, a corner for the last child.
pub open spec fn prefix(depth: nat, is_last: bool) -> Seq<char> {
    if depth == 0 {
        "* "@
    } else {
        spaces((2 * (depth - 1)) as nat) + if is_last {
            "`-* "@
        } else {
            "|-* "@
        }
    }
}

/// A name longer than 20 bytes is cut to its first 19 bytes and an
/// ellipsis.
pub open spec fn short_name(name: Seq<char>) -> Seq<char> {
    if utf8_len(name) > 20 {
        byte_slice(name, 0, 19) + seq!['\u{2026}']
    } else {
        name
    }
}

/// Cutting a long name at byte 19 does not split a character.
pub open spec fn name_cuttable(name: Seq<char>) -> bool {
    utf8_len(name) > 20 ==> is_char_boundary(encode_utf8(name), 19)
}

pub open spec fn line_text(a: Agent, depth: nat, is_last: bool) -> Seq<char> {
    pad(prefix(depth, is_last), 6) + pad(short_name(a.name@), 22) + " "@ + status_tag(a.status)
}

/// A line as a plain value.
pub open spec fn line_view(l: TreeLine) -> (AgentId, Seq<char>, AgentStatus) {
    (l.agent_id, l.display_text@, l.status)
}

/// The lines of the subtree at `id`, depth first; `fuel` bounds the depth
/// (it never runs out on a tree without cycles, with one unit per agent).
pub open spec fn subtree(agents: Seq<Agent>, id: AgentId, depth: nat, is_last: bool, fuel: nat) -> Seq<(AgentId, Seq<char>, AgentStatus)>
    decreases fuel, 0nat,
{
    if fuel == 0 {
        Seq::empty()
    } else {
        match lookup_last(agents, id) {
            None => Seq::empty(),
            Some(i) => seq![(agents[i].id, line_text(agents[i], depth, is_last), agents[i].status)] + children_lines(
                agents,
                agents[i].children@,
                0,
                depth + 1,
                (fuel - 1) as nat,
            ),
        }
    }
}

/// The lines of the subtrees of `kids[j..]`.
pub open spec fn children_lines(agents: Seq<Agent>, kids: Seq<AgentId>, j: nat, depth: nat, fuel: nat) -> Seq<(AgentId, Seq<char>, AgentStatus)>
    decreases fuel, 1nat, kids.len() - j,
{
    if j >= kids.len() {
        Seq::empty()
    } else {
        subtree(agents, kids[j as int], depth, j + 1 == kids.len(), fuel) + children_lines(agents, kids, j + 1, depth, fuel)
    }
}

/// `b` is a child (by id) of the agent the tree shows for `a`.
pub open spec fn child_of(agents: Seq<Agent>, a: AgentId, b: AgentId) -> bool {
    lookup_last(agents, a) matches Some(i) && agents[i].children@.contains(b)
}

/// `b` is reached from `a` in `n` child steps.
pub open spec fn reaches(agents: Seq<Agent>, a: AgentId, b: AgentId, n: nat) -> bool
    decreases n,
{
    if n == 0 {
        a == b
    } else {
        exists|c: AgentId| child_of(agents, a, c) && #[trigger] reaches(agents, c, b, (n - 1) as nat)
    }
}

/// No agent below `root` is its own descendant (the tree walk ends).
pub open spec fn acyclic_below(agents: Seq<Agent>, root: AgentId) -> bool {
    forall|x: AgentId, n: nat, m: nat| #[trigger] reaches(agents, root, x, n) && m > 0 ==> !#[trigger] reaches(agents, x, x, m)
}

fn same_agent(a: &AgentId, b: &AgentId) -> (r: bool)
    ensures
        r == (*a == *b),
{
    let mut i: usize = 0;
    while i < 16
        invariant
            i <= 16,
            forall|k: int| 0 <= k < i ==> a@[k] == b@[k],
        decreases 16 - i,
    {
        if a[i] != b[i] {
            return false;
        }
        i += 1;
    }
    proof {
        assert(a@ =~= b@);
        vstd::array::axiom_array_ext_equal(*a, *b);
    }
    true
}

fn find_last(agents: &[Agent], id: &AgentId) -> (r: Option<usize>)
    ensures
        match r {
            Some(i) => lookup_last(agents@, *id) == Some(i as int),
            None => lookup_last(agents@, *id) is None,
        },
{
    let mut i = agents.len();
    while i > 0
        invariant
            i <= agents@.len(),
            forall|k: int| i <= k < agents@.len() ==> agents@[k].id != *id,
        decreases i,
    {
        if same_agent(&agents[i - 1].id, id) {
            proof {
                assert(last_with_id(agents@, *id, i - 1));
                let j = choose|j: int| last_with_id(agents@, *id, j);
                if j < i - 1 {
                    assert(agents@[i - 1].id != *id);
                }
                if j > i - 1 {
                    assert(agents@[j].id != *id);
                }
            }
            return Some(i - 1);
        }
        i -= 1;
    }
    None
}

pub(crate) fn find_first(agents: &[Agent], id: &AgentId) -> (r: Option<usize>)
    ensures
        match r {
            Some(i) => lookup_first(agents@, *id) == Some(i as int),
            None => lookup_first(agents@, *id) is None,
        },
{
    let mut i: usize = 0;
    while i < agents.len()
        invariant
            i <= agents@.len(),
            forall|k: int| 0 <= k < i ==> agents@[k].id != *id,
        decreases agents@.len() - i,
    {
        if same_agent(&agents[i].id, id) {
            proof {
                assert(first_with_id(agents@, *id, i as int));
                let j = choose|j: int| first_with_id(agents@, *id, j);
                if j < i {
                    assert(agents@[j].id != *id);
                }
                if j > i {
                    assert(agents@[i as int].id != *id);
                }
            }
            return Some(i);
        }
        i += 1;
    }
    None
}

fn push_spaces(s: &mut String, n: usize)
    ensures
        final(s)@ == old(s)@ + spaces(n as nat),
{
    let mut i: usize = 0;
    while i < n
        invariant
            i <= n,
            s@ == old(s)@ + spaces(i as nat),
        decreases n - i,
    {
        push_char(s, ' ');
        assert(old(s)@ + spaces((i + 1) as nat) =~= (old(s)@ + spaces(i as nat)).push(' '));
        i += 1;
    }
}

fn push_padded(s: &mut String, t: &str, w: usize)
    ensures
        final(s)@ == old(s)@ + pad(t@, w as nat),
{
    s.append(t);
    let n = chars_of(t).len();
    if n < w {
        push_spaces(s, w - n);
    }
}

fn line_string(a: &Agent, depth: usize, is_last: bool) -> (r: String)
    requires
        name_cuttable(a.name@),
        2 * depth <= usize::MAX,
    ensures
        r@ == line_text(*a, depth as nat, is_last),
{
    let mut p = String::new();
    if depth == 0 {
        p.append("* ");
    } else {
        push_spaces(&mut p, 2 * (depth - 1));
        if is_last {
            p.append("`-* ");
        } else {
            p.append("|-* ");
        }
    }
    let name = if a.name.as_str().len() > 20 {
        let mut n = str_slice(a.name.as_str(), 0, 19);
        push_char(&mut n, '\u{2026}');
        n
    } else {
        a.name.clone()
    };
    let mut r = String::new();
    push_padded(&mut r, p.as_str(), 6);
    push_padded(&mut r, name.as_str(), 22);
    r.append(" ");
    r.append(status_tag_str(a.status));
    r
}

pub open spec fn lines_view(ls: Seq<TreeLine>) -> Seq<(AgentId, Seq<char>, AgentStatus)> {
    ls.map_values(|l: TreeLine| line_view(l))
}

fn build_diagnostic_tree(agents: &[Agent], id: &AgentId, depth: usize, is_last: bool, fuel: usize, lines: &mut Vec<TreeLine>)
    requires
        forall|i: int| 0 <= i < agents@.len() ==> name_cuttable(#[trigger] agents@[i].name@),
        2 * (depth + fuel) <= usize::MAX,
    ensures
        lines_view(final(lines)@) == lines_view(old(lines)@) + subtree(agents@, *id, depth as nat, is_last, fuel as nat),
    decreases fuel, 0nat,
{
    if fuel == 0 {
        assert(lines_view(lines@) =~= lines_view(lines@) + Seq::<(AgentId, Seq<char>, AgentStatus)>::empty());
        return;
    }
    match find_last(agents, id) {
        None => {
            assert(lines_view(lines@) =~= lines_view(lines@) + Seq::<(AgentId, Seq<char>, AgentStatus)>::empty());
        },
        Some(i) => {
            let a = &agents[i];
            let text = line_string(a, depth, is_last);
            let ghost before = lines_view(lines@);
            lines.push(TreeLine { agent_id: a.id, display_text: text, status: a.status });
            assert(lines_view(lines@) =~= before.push((a.id, line_text(*a, depth as nat, is_last), a.status)));
            build_children(agents, &a.children, 0, depth + 1, fuel - 1, lines);
            assert(seq![(agents@[i as int].id, line_text(agents@[i as int], depth as nat, is_last), agents@[i as int].status)]
                + children_lines(agents@, agents@[i as int].children@, 0, (depth + 1) as nat, (fuel - 1) as nat)
                =~= seq![(a.id, line_text(*a, depth as nat, is_last), a.status)] + children_lines(
                agents@,
                a.children@,
                0,
                (depth + 1) as nat,
                (fuel - 1) as nat,
            ));
            assert(lines_view(lines@) =~= before + subtree(agents@, *id, depth as nat, is_last, fuel as nat));
        },
    }
}

fn build_children(agents: &[Agent], kids: &Vec<AgentId>, j: usize, depth: usize, fuel: usize, lines: &mut Vec<TreeLine>)
    requires
        forall|i: int| 0 <= i < agents@.len() ==> name_cuttable(#[trigger] agents@[i].name@),
        2 * (depth + fuel) <= usize::MAX,
        j <= kids@.len(),
    ensures
        lines_view(final(lines)@) == lines_view(old(lines)@) + children_lines(agents@, kids@, j as nat, depth as nat, fuel as nat),
    decreases fuel, 1nat, kids@.len() - j,
{
    if j >= kids.len() {
        assert(lines_view(lines@) =~= lines_view(lines@) + Seq::<(AgentId, Seq<char>, AgentStatus)>::empty());
        return;
    }
    let ghost before = lines_view(lines@);
    build_diagnostic_tree(agents, &kids[j], depth, j + 1 == kids.len(), fuel, lines);
    let ghost mid = lines_view(lines@);
    build_children(agents, kids, j + 1, depth, fuel, lines);
    assert(lines_view(lines@) =~= before + children_lines(agents@, kids@, j as nat, depth as nat, fuel as nat));
}

/// The tree lines of the pool from `root_id`: nothing when the root is not
/// in the pool.
pub fn build_agent_tree_lines(pool: &AgentPool, root_id: &AgentId) -> (r: Vec<TreeLine>)
    requires
        acyclic_below(pool.spec_agents(), *root_id),
        pool.spec_agents().len() <= usize::MAX / 4,
        forall|i: int| 0 <= i < pool.spec_agents().len() ==> name_cuttable(#[trigger] pool.spec_agents()[i].name@),
    ensures
        lines_view(r@) == subtree(pool.spec_agents(), *root_id, 0, true, (pool.spec_agents().len() + 1) as nat),
{
    let agents = pool.agents();
    let mut lines: Vec<TreeLine> = Vec::new();
    if find_last(agents, root_id).is_none() {
        assert(lines_view(lines@) =~= Seq::<(AgentId, Seq<char>, AgentStatus)>::empty());
        return lines;
    }
    assert(lines_view(lines@) =~= Seq::<(AgentId, Seq<char>, AgentStatus)>::empty());
    build_diagnostic_tree(agents, root_id, 0, true, agents.len() + 1, &mut lines);
    assert(lines_view(lines@) =~= Seq::<(AgentId, Seq<char>, AgentStatus)>::empty() + subtree(
        pool.spec_agents(),
        *root_id,
        0,
        true,
        (pool.spec_agents().len() + 1) as nat,
    ));
    lines
}

pub open spec fn tool_mark(s: ToolStatus) -> char {
    match s {
        ToolStatus::Running => '\u{23f3}',
        ToolStatus::Success => '\u{2713}',
        ToolStatus::Error => '\u{2717}',
    }
}

pub open spec fn trace_line(r: ToolCallRecord) -> Seq<char> {
    "  "@ + seq![tool_mark(r.status)] + " "@ + r.name@ + "("@ + r.args_preview@ + ")"@
}

/// The latest (at most three) tool calls of the first agent with the id,
/// most recent first.
pub open spec fn trace_preview(agents: Seq<Agent>, id: AgentId) -> Seq<Seq<char>> {
    match lookup_first(agents, id) {
        None => Seq::empty(),
        Some(i) => {
            let t = agents[i].tool_trace@;
            let n = if t.len() < 3 {
                t.len()
            } else {
                3
            };
            Seq::new(n, |k: int| trace_line(t[t.len() - 1 - k]))
        },
    }
}

pub open spec fn strings_view(v: Seq<String>) -> Seq<Seq<char>> {
    v.map_values(|s: String| s@)
}

pub fn build_tool_trace_preview(pool: &AgentPool, agent_id: &AgentId) -> (r: Vec<String>)
    ensures
        strings_view(r@) == trace_preview(pool.spec_agents(), *agent_id),
{
    let agents = pool.agents();
    let mut r: Vec<String> = Vec::new();
    match find_first(agents, agent_id) {
        None => {
            assert(strings_view(r@) =~= Seq::<Seq<char>>::empty());
        },
        Some(i) => {
            let t = &agents[i].tool_trace;
            let n = if t.len() < 3 {
                t.len()
            } else {
                3
            };
            let mut k: usize = 0;
            while k < n
                invariant
                    k <= n,
                    n <= t@.len(),
                    n == if t@.len() < 3 {
                        t@.len()
                    } else {
                        3
                    },
                    strings_view(r@) =~= Seq::new(k as nat, |q: int| trace_line(t@[t@.len() - 1 - q])),
                decreases n - k,
            {
                let rec = &t[t.len() - 1 - k];
                let mut line = String::from_str("  ");
                let mark = match rec.status {
                    ToolStatus::Running => '\u{23f3}',
                    ToolStatus::Success => '\u{2713}',
                    ToolStatus::Error => '\u{2717}',
                };
                push_char(&mut line, mark);
                assert(mark == tool_mark(rec.status));
                line.append(" ");
                line.append(rec.name.as_str());
                line.append("(");
                line.append(rec.args_preview.as_str());
                line.append(")");
                assert(line@ =~= trace_line(*rec));
                let ghost before = strings_view(r@);
                r.push(line);
                assert(strings_view(r@) =~= before.push(trace_line(t@[t@.len() - 1 - k])));
                k += 1;
            }
        },
    }
    r
}

/// An agent that has not finished.
pub open spec fn active(s: AgentStatus) -> bool {
    !(s is Completed || s is Failed)
}

/// The first agent with the id is in the pool and has not finished.
pub open spec fn active_agent(agents: Seq<Agent>, id: AgentId) -> bool {
    lookup_first(agents, id) matches Some(c) && active(agents[c].status)
}

/// Some child of the first agent with the root id is known to the pool and
/// has not finished.
pub open spec fn spec_has_active_delegations(agents: Seq<Agent>, root: AgentId) -> bool {
    match lookup_first(agents, root) {
        None => false,
        Some(i) => exists|k: int| 0 <= k < agents[i].children@.len() && #[trigger] active_agent(agents, agents[i].children@[k]),
    }
}

pub fn has_active_delegations(pool: &AgentPool, root_id: &AgentId) -> (b: bool)
    ensures
        b == spec_has_active_delegations(pool.spec_agents(), *root_id),
{
    let agents = pool.agents();
    match find_first(agents, root_id) {
        None => false,
        Some(i) => {
            let kids = &agents[i].children;
            let mut k: usize = 0;
            while k < kids.len()
                invariant
                    k <= kids@.len(),
                    kids@ == agents@[i as int].children@,
                    agents@ == pool.spec_agents(),
                    lookup_first(agents@, *root_id) == Some(i as int),
                    forall|q: int| 0 <= q < k ==> !#[trigger] active_agent(agents@, kids@[q]),
                decreases kids@.len() - k,
            {
                match find_first(agents, &kids[k]) {
                    Some(c) => {
                        if !matches!(agents[c].status, AgentStatus::Completed | AgentStatus::Failed) {
                            assert(active_agent(agents@, agents@[i as int].children@[k as int]));
                            assert(exists|q: int|
                                0 <= q < agents@[i as int].children@.len() && #[trigger] active_agent(
                                    agents@,
                                    agents@[i as int].children@[q],
                                ));
                            return true;
                        }
                    },
                    None => {},
                }
                k += 1;
            }
            false
        },
    }
}

} // verus!
