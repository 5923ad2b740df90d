//! Experiences that agents record per role, kept in a bounded FIFO buffer
//! for each role.
use vstd::prelude::*;
use vstd::string::StringSliceAdditionalSpecFns;
use std::collections::VecDeque;
use crate::text::{str_eq, utf8_len};

verus! {

pub type RoleId = String;

/// How many experiences a role keeps; the oldest goes first.
pub const MAX_EXPERIENCES_PER_ROLE: usize = 1024;

pub const GOAL_MAX_LENGTH: usize = 1024;

pub const TOOL_CALLS_MAX_LENGTH: usize = 1024;

pub const SUMMARY_MAX_LENGTH: usize = 1024;

pub const COMMENT_MAX_LENGTH: usize = 1024;

pub type ToolId = u32;

/// A role: its name, its definition (the system prompt) and its tools.
#[derive(Debug, Clone)]
pub struct Role {
    name: String,
    definition: String,
    tools: Vec<ToolId>,
}

impl Role {
    pub closed spec fn spec_name(&self) -> Seq<char> {
        self.name@
    }

    pub closed spec fn spec_definition(&self) -> Seq<char> {
        self.definition@
    }

    pub closed spec fn spec_tools(&self) -> Seq<ToolId> {
        self.tools@
    }

    pub fn new(name: String, definition: String, tools: Vec<ToolId>) -> (r: Self)
        ensures
            r.spec_name() == name@,
            r.spec_definition() == definition@,
            r.spec_tools() == tools@,
    {
        Role { name, definition, tools }
    }

    pub fn name(&self) -> (n: &str)
        ensures
            n@ == self.spec_name(),
    {
        self.name.as_str()
    }

    pub fn definition(&self) -> (d: &str)
        ensures
            d@ == self.spec_definition(),
    {
        self.definition.as_str()
    }

    pub fn tools(&self) -> (t: &[ToolId])
        ensures
            t@ == self.spec_tools(),
    {
        self.tools.as_slice()
    }
}

/// The roles by id; an id holds one role.
pub struct RolePool {
    roles: Vec<(RoleId, Role)>,
}

impl RolePool {
    /// Ids are distinct.
    pub closed spec fn well_formed(&self) -> bool {
        forall|i: int, j: int|
            0 <= i < self.roles@.len() && 0 <= j < self.roles@.len() && i != j ==> self.roles@[i].0@
                != self.roles@[j].0@
    }

    /// The names of the roles, in the order they are kept.
    pub closed spec fn spec_role_names(&self) -> Seq<Seq<char>> {
        self.roles@.map_values(|p: (RoleId, Role)| p.1.name@)
    }

    /// The role of each id.
    pub closed spec fn spec_roles(&self) -> Map<Seq<char>, Role> {
        Map::new(
            |k: Seq<char>| exists|i: int| 0 <= i < self.roles@.len() && self.roles@[i].0@ == k,
            |k: Seq<char>| self.roles@[choose|i: int| 0 <= i < self.roles@.len() && self.roles@[i].0@ == k].1,
        )
    }

    proof fn lemma_at(&self, i: int)
        requires
            self.well_formed(),
            0 <= i < self.roles@.len(),
        ensures
            self.spec_roles().contains_key(self.roles@[i].0@),
            self.spec_roles()[self.roles@[i].0@] == self.roles@[i].1,
    {
        let k = self.roles@[i].0@;
        let j = choose|j: int| 0 <= j < self.roles@.len() && self.roles@[j].0@ == k;
        if j != i {
            assert(self.roles@[j].0@ != self.roles@[i].0@);
        }
    }

    fn position(&self, id: &str) -> (r: Option<usize>)
        ensures
            match r {
                Some(i) => i < self.roles@.len() && self.roles@[i as int].0@ == id@,
                None => !self.spec_roles().contains_key(id@),
            },
    {
        let mut i: usize = 0;
        while i < self.roles.len()
            invariant
                i <= self.roles@.len(),
                forall|k: int| 0 <= k < i ==> self.roles@[k].0@ != id@,
            decreases self.roles@.len() - i,
        {
            if str_eq(self.roles[i].0.as_str(), id) {
                return Some(i);
            }
            i += 1;
        }
        None
    }

    /// An empty pool.
    pub fn empty() -> (p: Self)
        ensures
            p.well_formed(),
            p.spec_roles() == Map::<Seq<char>, Role>::empty(),
    {
        let p = RolePool { roles: Vec::new() };
        assert(p.spec_roles() =~= Map::<Seq<char>, Role>::empty());
        p
    }

    /// The role with the id, if any.
    pub fn get(&self, role_id: &RoleId) -> (r: Option<&Role>)
        requires
            self.well_formed(),
        ensures
            match r {
                Some(role) => self.spec_roles().contains_key(role_id@) && *role == self.spec_roles()[role_id@],
                None => !self.spec_roles().contains_key(role_id@),
            },
    {
        match self.position(role_id.as_str()) {
            Some(i) => {
                proof {
                    self.lemma_at(i as int);
                }
                Some(&self.roles[i].1)
            },
            None => None,
        }
    }

    /// Set the role of an id (replacing the one it had).
    pub fn add(&mut self, id: RoleId, role: Role)
        requires
            old(self).well_formed(),
        ensures
            final(self).well_formed(),
            final(self).spec_roles() == old(self).spec_roles().insert(id@, role),
    {
        let ghost old_roles = self.roles@;
        match self.position(id.as_str()) {
            Some(i) => {
                let ghost r = role;
                self.roles.set(i, (id, role));
                proof {
                    assert forall|a: int, b: int|
                        0 <= a < self.roles@.len() && 0 <= b < self.roles@.len() && a != b implies self.roles@[a].0@
                        != self.roles@[b].0@ by {
                        assert(old_roles[a].0@ != old_roles[b].0@);
                    }
                    assert forall|k: Seq<char>| #[trigger] self.spec_roles().contains_key(k)
                        == old(self).spec_roles().insert(id@, r).contains_key(k) by {
                        if self.spec_roles().contains_key(k) {
                            let t = choose|t: int| 0 <= t < self.roles@.len() && self.roles@[t].0@ == k;
                            if t != i {
                                old(self).lemma_at(t);
                            }
                        }
                        if old(self).spec_roles().contains_key(k) {
                            let t = choose|t: int| 0 <= t < old_roles.len() && old_roles[t].0@ == k;
                            assert(self.roles@[t].0@ == k);
                        }
                    }
                    assert forall|k: Seq<char>| #[trigger] self.spec_roles().contains_key(k) implies self.spec_roles()[k]
                        == old(self).spec_roles().insert(id@, r)[k] by {
                        let t = choose|t: int| 0 <= t < self.roles@.len() && self.roles@[t].0@ == k;
                        self.lemma_at(t);
                        if t != i {
                            old(self).lemma_at(t);
                        }
                    }
                    assert(self.spec_roles() =~= old(self).spec_roles().insert(id@, r));
                }
            },
            None => {
                let ghost r = role;
                let ghost key = id@;
                let n = self.roles.len();
                self.roles.push((id, role));
                proof {
                    assert forall|a: int, b: int|
                        0 <= a < self.roles@.len() && 0 <= b < self.roles@.len() && a != b implies self.roles@[a].0@
                        != self.roles@[b].0@ by {
                        if a < n && b < n {
                            assert(old_roles[a].0@ != old_roles[b].0@);
                        } else if a < n {
                            old(self).lemma_at(a);
                        } else {
                            old(self).lemma_at(b);
                        }
                    }
                    assert forall|k: Seq<char>| #[trigger] self.spec_roles().contains_key(k)
                        == old(self).spec_roles().insert(key, r).contains_key(k) by {
                        if k == key {
                            assert(self.roles@[n as int].0@ == key);
                        }
                        if self.spec_roles().contains_key(k) {
                            let t = choose|t: int| 0 <= t < self.roles@.len() && self.roles@[t].0@ == k;
                            if t < n {
                                old(self).lemma_at(t);
                            }
                        }
                        if old(self).spec_roles().contains_key(k) {
                            let t = choose|t: int| 0 <= t < old_roles.len() && old_roles[t].0@ == k;
                            assert(self.roles@[t].0@ == k);
                        }
                    }
                    assert forall|k: Seq<char>| #[trigger] self.spec_roles().contains_key(k) implies self.spec_roles()[k]
                        == old(self).spec_roles().insert(key, r)[k] by {
                        let t = choose|t: int| 0 <= t < self.roles@.len() && self.roles@[t].0@ == k;
                        self.lemma_at(t);
                        if t < n {
                            old(self).lemma_at(t);
                        }
                    }
                    assert(self.spec_roles() =~= old(self).spec_roles().insert(key, r));
                }
            },
        }
    }

    /// Every role, in the order their ids were first added.
    pub fn list(&self) -> (r: Vec<&Role>)
        requires
            self.well_formed(),
        ensures
            r@.len() == self.spec_roles().len(),
            forall|i: int| 0 <= i < r@.len() ==> self.spec_roles().contains_value(*#[trigger] r@[i]),
    {
        let mut r: Vec<&Role> = Vec::new();
        let mut i: usize = 0;
        while i < self.roles.len()
            invariant
                i <= self.roles@.len(),
                self.well_formed(),
                r@.len() == i,
                forall|t: int| 0 <= t < i ==> *r@[t] == self.roles@[t].1,
            decreases self.roles@.len() - i,
        {
            r.push(&self.roles[i].1);
            i += 1;
        }
        proof {
            assert forall|t: int| 0 <= t < r@.len() implies self.spec_roles().contains_value(*#[trigger] r@[t]) by {
                self.lemma_at(t);
            }
            self.lemma_len();
        }
        r
    }

    proof fn lemma_len(&self)
        requires
            self.well_formed(),
        ensures
            self.spec_roles().len() == self.roles@.len(),
        decreases self.roles@.len(),
    {
        let keys = Seq::new(self.roles@.len(), |i: int| self.roles@[i].0@);
        assert forall|i: int, j: int| 0 <= i < keys.len() && 0 <= j < keys.len() && i != j implies keys[i] != keys[j] by {}
        assert(self.spec_roles().dom() =~= keys.to_set()) by {
            assert forall|k: Seq<char>| keys.to_set().contains(k) implies self.spec_roles().dom().contains(k) by {
                let i = choose|i: int| 0 <= i < keys.len() && keys[i] == k;
                self.lemma_at(i);
            }
            assert forall|k: Seq<char>| self.spec_roles().dom().contains(k) implies keys.to_set().contains(k) by {
                let i = choose|i: int| 0 <= i < self.roles@.len() && self.roles@[i].0@ == k;
                assert(keys[i] == k);
            }
        }
        keys.unique_seq_to_set();
    }
}

/// The map a list of id and role pairs makes, later pairs replacing
/// earlier ones.
pub open spec fn pairs_map(pairs: Seq<(RoleId, Role)>) -> Map<Seq<char>, Role>
    decreases pairs.len(),
{
    if pairs.len() == 0 {
        Map::empty()
    } else {
        pairs_map(pairs.drop_last()).insert(pairs.last().0@, pairs.last().1)
    }
}

impl RolePool {
    /// A pool holding the given roles.
    pub fn new(roles: Vec<(RoleId, Role)>) -> (p: Self)
        ensures
            p.well_formed(),
            p.spec_roles() == pairs_map(roles@),
    {
        let ghost all = roles@;
        let mut rest = roles;
        let mut p = RolePool::empty();
        let mut taken: usize = 0;
        let n = rest.len();
        while rest.len() > 0
            invariant
                p.well_formed(),
                n == all.len(),
                taken + rest@.len() == all.len(),
                rest@ == all.subrange(taken as int, all.len() as int),
                p.spec_roles() == pairs_map(all.subrange(0, taken as int)),
            decreases rest@.len(),
        {
            let (id, role) = rest.remove(0);
            proof {
                assert(all.subrange(0, taken + 1).drop_last() =~= all.subrange(0, taken as int));
                assert(all.subrange(0, taken + 1).last() == (id, role));
            }
            p.add(id, role);
            assert(rest@ =~= all.subrange(taken + 1, all.len() as int));
            taken += 1;
        }
        assert(all.subrange(0, all.len() as int) =~= all);
        p
    }
}

impl crate::orchestrate::RoleChecker for RolePool {
    open spec fn has_role(&self, role: Seq<char>) -> bool {
        self.spec_roles().contains_key(role)
    }

    open spec fn role_names(&self) -> Seq<Seq<char>> {
        self.spec_role_names()
    }

    fn role_exists(&self, role: &str) -> (b: bool) {
        let r = self.position(role);
        proof {
            if r is Some {
                assert(self.spec_roles().dom().contains(role@));
            }
        }
        r.is_some()
    }

    fn list_roles(&self) -> (r: Vec<String>) {
        let mut r: Vec<String> = Vec::new();
        let mut i: usize = 0;
        while i < self.roles.len()
            invariant
                i <= self.roles@.len(),
                r@.map_values(|s: String| s@) == self.spec_role_names().subrange(0, i as int),
            decreases self.roles@.len() - i,
        {
            let ghost before = r@;
            r.push(String::from_str(self.roles[i].1.name.as_str()));
            assert(r@.map_values(|s: String| s@) =~= before.map_values(|s: String| s@).push(self.roles@[i as int].1.name@));
            assert(self.spec_role_names().subrange(0, i + 1) =~= self.spec_role_names().subrange(0, i as int).push(
                self.roles@[i as int].1.name@,
            ));
            i += 1;
        }
        assert(self.spec_role_names().subrange(0, i as int) =~= self.spec_role_names());
        r
    }
}

impl Default for RolePool {
    /// The planner (under the empty id) and the executor.
    fn default() -> (p: Self)
        ensures
            p.well_formed(),
            p.spec_roles().dom() =~= set![Seq::<char>::empty(), "executor"@],
    {
        let mut p = RolePool::empty();
        let mut planner_tools: Vec<ToolId> = Vec::new();
        planner_tools.push(0);
        p.add(String::new(), Role::new(String::from_str("planner"), String::from_str("I should help user to plan"), planner_tools));
        p.add(String::from_str("executor"), Role::new(String::from_str("executor"), String::from_str("I should execute the plan"), Vec::new()));
        p
    }
}

/// What an agent did for a role: its goal, the tools it called, a summary
/// and a comment.
pub struct Experience {
    role_id: RoleId,
    goal: String,
    tool_calls: Vec<String>,
    summary: String,
    comment: String,
    timestamp: u64,
}

/// The size limits an experience must keep (texts in bytes, tool calls by
/// count).
pub open spec fn experience_fits(goal: Seq<char>, tool_calls: nat, summary: Seq<char>, comment: Seq<char>) -> bool {
    &&& utf8_len(goal) <= GOAL_MAX_LENGTH
    &&& tool_calls <= TOOL_CALLS_MAX_LENGTH
    &&& utf8_len(summary) <= SUMMARY_MAX_LENGTH
    &&& utf8_len(comment) <= COMMENT_MAX_LENGTH
}

impl Experience {
    pub closed spec fn spec_role_id(&self) -> Seq<char> {
        self.role_id@
    }

    pub closed spec fn spec_goal(&self) -> Seq<char> {
        self.goal@
    }

    pub closed spec fn spec_tool_calls(&self) -> Seq<String> {
        self.tool_calls@
    }

    pub closed spec fn spec_summary(&self) -> Seq<char> {
        self.summary@
    }

    pub closed spec fn spec_comment(&self) -> Seq<char> {
        self.comment@
    }

    pub closed spec fn spec_timestamp(&self) -> u64 {
        self.timestamp
    }

    /// An experience, or `None` when a text or the tool-call list is over
    /// its limit.
    pub fn new(
        role_id: RoleId,
        goal: String,
        tool_calls: Vec<String>,
        summary: String,
        comment: String,
        timestamp: u64,
    ) -> (r: Option<Self>)
        ensures
            r is Some <==> experience_fits(goal@, tool_calls@.len(), summary@, comment@),
            r matches Some(e) ==> {
                &&& e.spec_role_id() == role_id@
                &&& e.spec_goal() == goal@
                &&& e.spec_tool_calls() == tool_calls@
                &&& e.spec_summary() == summary@
                &&& e.spec_comment() == comment@
                &&& e.spec_timestamp() == timestamp
            },
    {
        if goal.as_str().len() > GOAL_MAX_LENGTH || tool_calls.len() > TOOL_CALLS_MAX_LENGTH
            || summary.as_str().len() > SUMMARY_MAX_LENGTH || comment.as_str().len() > COMMENT_MAX_LENGTH {
            return None;
        }
        Some(Experience { role_id, goal, tool_calls, summary, comment, timestamp })
    }

    pub fn role_id(&self) -> (r: &RoleId)
        ensures
            r@ == self.spec_role_id(),
    {
        &self.role_id
    }

    pub fn comment(&self) -> (r: &str)
        ensures
            r@ == self.spec_comment(),
    {
        self.comment.as_str()
    }

    pub fn timestamp(&self) -> (t: u64)
        ensures
            t == self.spec_timestamp(),
    {
        self.timestamp
    }
}

/// The experiences of one role, oldest first.
struct RoleEntry {
    role: RoleId,
    items: VecDeque<Experience>,
}

/// Per-role FIFO buffers of experiences, each capped at
/// `MAX_EXPERIENCES_PER_ROLE`.
pub struct ExperiencePool {
    entries: Vec<RoleEntry>,
}

/// `items` with `e` appended, the oldest item dropped first when the buffer
/// is full.
pub open spec fn ring_push(items: Seq<Experience>, e: Experience) -> Seq<Experience> {
    if items.len() >= MAX_EXPERIENCES_PER_ROLE {
        items.drop_first().push(e)
    } else {
        items.push(e)
    }
}

/// `as_slices` of a deque: its contents as two slices, in order.
#[verifier::external_body]
fn deque_slices<T>(d: &VecDeque<T>) -> (r: (&[T], &[T]))
    ensures
        r.0@ + r.1@ == d@,
{
    d.as_slices()
}

impl ExperiencePool {
    /// Roles are distinct; every role held has between one and
    /// `MAX_EXPERIENCES_PER_ROLE` experiences.
    pub closed spec fn well_formed(&self) -> bool {
        &&& forall|i: int, j: int|
            0 <= i < self.entries@.len() && 0 <= j < self.entries@.len() && i != j
                ==> self.entries@[i].role@ != self.entries@[j].role@
        &&& forall|i: int|
            0 <= i < self.entries@.len() ==> 0 < (#[trigger] self.entries@[i]).items@.len() <= MAX_EXPERIENCES_PER_ROLE
    }

    /// The roles that hold experiences.
    pub closed spec fn roles(&self) -> Set<Seq<char>> {
        Set::new(|k: Seq<char>| exists|i: int| 0 <= i < self.entries@.len() && self.entries@[i].role@ == k)
    }

    /// The experiences of a role, oldest first (empty for a role not held).
    pub closed spec fn experiences(&self, id: Seq<char>) -> Seq<Experience> {
        if exists|i: int| 0 <= i < self.entries@.len() && self.entries@[i].role@ == id {
            self.entries@[choose|i: int| 0 <= i < self.entries@.len() && self.entries@[i].role@ == id].items@
        } else {
            Seq::empty()
        }
    }

    /// How many roles are held.
    pub closed spec fn role_count(&self) -> nat {
        self.entries@.len()
    }

    /// The count of roles is the number of roles held.
    pub proof fn lemma_role_count(&self)
        requires
            self.well_formed(),
        ensures
            self.role_count() == self.roles().len(),
    {
        let s = self.entries@.map_values(|e: RoleEntry| e.role@);
        assert(s.no_duplicates()) by {
            assert forall|i: int, j: int| 0 <= i < s.len() && 0 <= j < s.len() && i != j implies s[i] != s[j] by {
                assert(self.entries@[i].role@ != self.entries@[j].role@);
            }
        }
        assert(self.roles() =~= s.to_set()) by {
            assert forall|k: Seq<char>| self.roles().contains(k) <==> s.to_set().contains(k) by {
                if self.roles().contains(k) {
                    let i = choose|i: int| 0 <= i < self.entries@.len() && self.entries@[i].role@ == k;
                    assert(s[i] == k);
                }
                if s.to_set().contains(k) {
                    let i = choose|i: int| 0 <= i < s.len() && s[i] == k;
                    assert(self.entries@[i].role@ == k);
                }
            }
        }
        s.unique_seq_to_set();
    }

    /// No role ever holds more than `MAX_EXPERIENCES_PER_ROLE` experiences.
    pub proof fn lemma_capacity(&self, id: Seq<char>)
        requires
            self.well_formed(),
        ensures
            self.experiences(id).len() <= MAX_EXPERIENCES_PER_ROLE,
    {
        if exists|i: int| 0 <= i < self.entries@.len() && self.entries@[i].role@ == id {
            let i = choose|i: int| 0 <= i < self.entries@.len() && self.entries@[i].role@ == id;
            assert(0 < self.entries@[i].items@.len() <= MAX_EXPERIENCES_PER_ROLE);
        }
    }

    proof fn lemma_found(&self, i: int)
        requires
            self.well_formed(),
            0 <= i < self.entries@.len(),
        ensures
            self.experiences(self.entries@[i].role@) == self.entries@[i].items@,
            self.roles().contains(self.entries@[i].role@),
    {
        let id = self.entries@[i].role@;
        let k = choose|k: int| 0 <= k < self.entries@.len() && self.entries@[k].role@ == id;
        if k != i {
            assert(self.entries@[k].role@ != self.entries@[i].role@);
        }
    }

    /// Where `id` is held, if it is.
    fn find(&self, id: &str) -> (r: Option<usize>)
        requires
            self.well_formed(),
        ensures
            match r {
                Some(i) => i < self.entries@.len() && self.entries@[i as int].role@ == id@,
                None => !self.roles().contains(id@),
            },
    {
        let mut i: usize = 0;
        while i < self.entries.len()
            invariant
                i <= self.entries@.len(),
                forall|k: int| 0 <= k < i ==> self.entries@[k].role@ != id@,
            decreases self.entries@.len() - i,
        {
            if str_eq(self.entries[i].role.as_str(), id) {
                return Some(i);
            }
            i += 1;
        }
        None
    }

    pub fn new() -> (p: Self)
        ensures
            p.well_formed(),
            p.roles() == Set::<Seq<char>>::empty(),
            p.role_count() == 0,
            forall|id: Seq<char>| p.experiences(id) == Seq::<Experience>::empty(),
    {
        let p = ExperiencePool { entries: Vec::new() };
        assert(p.roles() =~= Set::<Seq<char>>::empty());
        p
    }

    /// All experiences of a role, oldest first, when the buffer holds them
    /// in one piece; otherwise, or for a role not held, nothing.
    pub fn query(&self, id: &RoleId) -> (r: &[Experience])
        requires
            self.well_formed(),
        ensures
            r@ == self.experiences(id@) || r@.len() == 0,
    {
        match self.find(id.as_str()) {
            Some(i) => {
                proof {
                    self.lemma_found(i as int);
                }
                let (a, b) = deque_slices(&self.entries[i].items);
                if b.len() == 0 {
                    assert(a@ =~= a@ + b@);
                    a
                } else {
                    &[]
                }
            },
            None => &[],
        }
    }

    /// All experiences of a role, oldest first.
    pub fn query_vec(&self, id: &RoleId) -> (r: Vec<&Experience>)
        requires
            self.well_formed(),
        ensures
            r@.len() == self.experiences(id@).len(),
            forall|k: int| 0 <= k < r@.len() ==> *r@[k] == self.experiences(id@)[k],
    {
        let mut r: Vec<&Experience> = Vec::new();
        match self.find(id.as_str()) {
            Some(i) => {
                proof {
                    self.lemma_found(i as int);
                }
                let items = &self.entries[i].items;
                let mut k: usize = 0;
                while k < items.len()
                    invariant
                        k <= items@.len(),
                        r@.len() == k,
                        forall|t: int| 0 <= t < k ==> *r@[t] == items@[t],
                    decreases items@.len() - k,
                {
                    r.push(&items[k]);
                    k += 1;
                }
            },
            None => {},
        }
        r
    }

    /// Record an experience for a role; a full buffer drops its oldest
    /// experience first.
    pub fn add(&mut self, id: RoleId, experience: Experience)
        requires
            old(self).well_formed(),
        ensures
            final(self).well_formed(),
            final(self).roles() == old(self).roles().insert(id@),
            final(self).role_count() == final(self).roles().len(),
            final(self).experiences(id@) == ring_push(old(self).experiences(id@), experience),
            forall|other: Seq<char>| other != id@ ==> final(self).experiences(other) == old(self).experiences(other),
    {
        let ghost e = experience;
        match self.find(id.as_str()) {
            Some(i) => {
                proof {
                    self.lemma_found(i as int);
                }
                let mut entry = self.entries.remove(i);
                if entry.items.len() >= MAX_EXPERIENCES_PER_ROLE {
                    entry.items.pop_front();
                }
                entry.items.push_back(experience);
                self.entries.insert(i, entry);
                proof {
                    assert(entry.items@ =~= ring_push(old(self).experiences(id@), e));
                    assert forall|a: int, b: int|
                        0 <= a < self.entries@.len() && 0 <= b < self.entries@.len() && a != b implies
                        self.entries@[a].role@ != self.entries@[b].role@ by {
                        assert(old(self).entries@[a].role@ != old(self).entries@[b].role@);
                    }
                    self.lemma_found(i as int);
                    assert(self.roles() =~= old(self).roles().insert(id@)) by {
                        assert forall|k: Seq<char>| self.roles().contains(k) <==> old(self).roles().contains(k)
                            || k == id@ by {
                            if old(self).roles().contains(k) {
                                let t = choose|t: int| 0 <= t < old(self).entries@.len() && old(self).entries@[t].role@ == k;
                                assert(self.entries@[t].role@ == k);
                            }
                            if self.roles().contains(k) {
                                let t = choose|t: int| 0 <= t < self.entries@.len() && self.entries@[t].role@ == k;
                                assert(old(self).entries@[t].role@ == k);
                            }
                        }
                    }
                    assert forall|other: Seq<char>| other != id@ implies self.experiences(other)
                        == old(self).experiences(other) by {
                        if exists|t: int| 0 <= t < old(self).entries@.len() && old(self).entries@[t].role@ == other {
                            let t = choose|t: int| 0 <= t < old(self).entries@.len() && old(self).entries@[t].role@ == other;
                            old(self).lemma_found(t);
                            self.lemma_found(t);
                        } else {
                            assert(!exists|t: int| 0 <= t < self.entries@.len() && self.entries@[t].role@ == other) by {
                                if exists|t: int| 0 <= t < self.entries@.len() && self.entries@[t].role@ == other {
                                    let t = choose|t: int| 0 <= t < self.entries@.len() && self.entries@[t].role@ == other;
                                    assert(old(self).entries@[t].role@ == other);
                                }
                            }
                        }
                    }
                }
            },
            None => {
                let mut items: VecDeque<Experience> = VecDeque::new();
                items.push_back(experience);
                let n = self.entries.len();
                self.entries.push(RoleEntry { role: id, items });
                proof {
                    assert forall|a: int, b: int|
                        0 <= a < self.entries@.len() && 0 <= b < self.entries@.len() && a != b implies
                        self.entries@[a].role@ != self.entries@[b].role@ by {
                        if a < n && b < n {
                            assert(old(self).entries@[a].role@ != old(self).entries@[b].role@);
                        } else if a == n {
                            assert(!old(self).roles().contains(old(self).entries@[b].role@) ==> false) by {
                                old(self).lemma_found(b);
                            }
                        } else {
                            assert(!old(self).roles().contains(old(self).entries@[a].role@) ==> false) by {
                                old(self).lemma_found(a);
                            }
                        }
                    }
                    self.lemma_found(n as int);
                    assert(old(self).experiences(id@) =~= Seq::<Experience>::empty());
                    assert(ring_push(old(self).experiences(id@), e) =~= seq![e]);
                    assert(self.roles() =~= old(self).roles().insert(id@)) by {
                        assert forall|k: Seq<char>| self.roles().contains(k) <==> old(self).roles().contains(k)
                            || k == id@ by {
                            if old(self).roles().contains(k) {
                                let t = choose|t: int| 0 <= t < old(self).entries@.len() && old(self).entries@[t].role@ == k;
                                assert(self.entries@[t].role@ == k);
                            }
                            if self.roles().contains(k) {
                                let t = choose|t: int| 0 <= t < self.entries@.len() && self.entries@[t].role@ == k;
                                if t < n {
                                    assert(old(self).entries@[t].role@ == k);
                                }
                            }
                        }
                    }
                    assert forall|other: Seq<char>| other != id@ implies self.experiences(other)
                        == old(self).experiences(other) by {
                        if exists|t: int| 0 <= t < old(self).entries@.len() && old(self).entries@[t].role@ == other {
                            let t = choose|t: int| 0 <= t < old(self).entries@.len() && old(self).entries@[t].role@ == other;
                            old(self).lemma_found(t);
                            self.lemma_found(t);
                        } else {
                            assert(!exists|t: int| 0 <= t < self.entries@.len() && self.entries@[t].role@ == other) by {
                                if exists|t: int| 0 <= t < self.entries@.len() && self.entries@[t].role@ == other {
                                    let t = choose|t: int| 0 <= t < self.entries@.len() && self.entries@[t].role@ == other;
                                    if t < n {
                                        assert(old(self).entries@[t].role@ == other);
                                    }
                                }
                            }
                        }
                    }
                }
            },
        }
        proof {
            self.lemma_role_count();
        }
    }

    /// Number of roles with at least one experience.
    pub fn len(&self) -> (n: usize)
        requires
            self.well_formed(),
        ensures
            n == self.role_count(),
            n == self.roles().len(),
    {
        proof {
            self.lemma_role_count();
        }
        self.entries.len()
    }

    pub fn is_empty(&self) -> (b: bool)
        requires
            self.well_formed(),
        ensures
            b == (self.role_count() == 0),
            b == (self.roles() == Set::<Seq<char>>::empty()),
    {
        if self.entries.len() == 0 {
            assert(self.roles() =~= Set::<Seq<char>>::empty());
            true
        } else {
            assert(self.roles().contains(self.entries@[0].role@));
            false
        }
    }

    /// Drop every experience of a role.
    pub fn clear_role(&mut self, id: &RoleId)
        requires
            old(self).well_formed(),
        ensures
            final(self).well_formed(),
            final(self).roles() == old(self).roles().remove(id@),
            final(self).role_count() == final(self).roles().len(),
            final(self).experiences(id@) == Seq::<Experience>::empty(),
            forall|other: Seq<char>| other != id@ ==> final(self).experiences(other) == old(self).experiences(other),
    {
        match self.find(id.as_str()) {
            Some(i) => {
                self.entries.remove(i);
                proof {
                    let oe = old(self).entries@;
                    assert(forall|t: int| 0 <= t < self.entries@.len() ==> #[trigger] self.entries@[t] == if t < i {
                        oe[t]
                    } else {
                        oe[t + 1]
                    });
                    assert forall|a: int, b: int|
                        0 <= a < self.entries@.len() && 0 <= b < self.entries@.len() && a != b implies
                        self.entries@[a].role@ != self.entries@[b].role@ by {
                        let a2 = if a < i { a } else { a + 1 };
                        let b2 = if b < i { b } else { b + 1 };
                        assert(oe[a2].role@ != oe[b2].role@);
                    }
                    assert(!exists|t: int| 0 <= t < self.entries@.len() && self.entries@[t].role@ == id@) by {
                        if exists|t: int| 0 <= t < self.entries@.len() && self.entries@[t].role@ == id@ {
                            let t = choose|t: int| 0 <= t < self.entries@.len() && self.entries@[t].role@ == id@;
                            let t2 = if t < i { t } else { t + 1 };
                            assert(oe[t2].role@ != oe[i as int].role@);
                        }
                    }
                    assert forall|other: Seq<char>| other != id@ implies self.experiences(other)
                        == old(self).experiences(other) by {
                        if exists|t: int| 0 <= t < oe.len() && oe[t].role@ == other {
                            let t = choose|t: int| 0 <= t < oe.len() && oe[t].role@ == other;
                            old(self).lemma_found(t);
                            assert(t != i);
                            let t1 = if t < i { t } else { t - 1 };
                            assert(self.entries@[t1] == oe[t]);
                            self.lemma_found(t1);
                        } else {
                            assert(!exists|t: int| 0 <= t < self.entries@.len() && self.entries@[t].role@ == other) by {
                                if exists|t: int| 0 <= t < self.entries@.len() && self.entries@[t].role@ == other {
                                    let t = choose|t: int| 0 <= t < self.entries@.len() && self.entries@[t].role@ == other;
                                    let t2 = if t < i { t } else { t + 1 };
                                    assert(oe[t2].role@ == other);
                                }
                            }
                        }
                    }
                    assert(self.roles() =~= old(self).roles().remove(id@)) by {
                        assert forall|k: Seq<char>| self.roles().contains(k) <==> old(self).roles().contains(k)
                            && k != id@ by {
                            if self.roles().contains(k) {
                                let t = choose|t: int| 0 <= t < self.entries@.len() && self.entries@[t].role@ == k;
                                let t2 = if t < i { t } else { t + 1 };
                                assert(oe[t2].role@ == k);
                            }
                            if old(self).roles().contains(k) && k != id@ {
                                let t = choose|t: int| 0 <= t < oe.len() && oe[t].role@ == k;
                                assert(t != i);
                                let t1 = if t < i { t } else { t - 1 };
                                assert(self.entries@[t1] == oe[t]);
                            }
                        }
                    }
                }
            },
            None => {
                proof {
                    assert(old(self).roles().remove(id@) =~= old(self).roles());
                    assert(!exists|t: int| 0 <= t < self.entries@.len() && self.entries@[t].role@ == id@) by {
                        if exists|t: int| 0 <= t < self.entries@.len() && self.entries@[t].role@ == id@ {
                            let t = choose|t: int| 0 <= t < self.entries@.len() && self.entries@[t].role@ == id@;
                            assert(self.roles().contains(id@));
                        }
                    }
                }
            },
        }
        proof {
            self.lemma_role_count();
        }
    }

    /// Drop every experience of every role.
    pub fn clear(&mut self)
        ensures
            final(self).well_formed(),
            final(self).roles() == Set::<Seq<char>>::empty(),
            final(self).role_count() == 0,
            forall|id: Seq<char>| final(self).experiences(id) == Seq::<Experience>::empty(),
    {
        self.entries = Vec::new();
        assert(self.roles() =~= Set::<Seq<char>>::empty());
    }
}

} // verus!
