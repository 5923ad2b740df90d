//! What the MCP client manager keeps of its connections: which servers are
//! connected, what their tools say of themselves, which tools need the
//! user's approval, and the approval requests still waiting for an answer.
//! Spawning servers, the sessions and the answer channels are the caller's
//! part.
use vstd::prelude::*;
use crate::text::str_eq;

verus! {

/// What a server says of one of its tools: its name, and its destructive
/// hint (`None` where the tool carries no annotations, `Some(None)` where
/// the annotations leave the hint unset).
#[derive(Debug, Clone)]
pub struct ToolFacts {
    pub name: String,
    pub destructive_hint: Option<Option<bool>>,
}

/// One connected server: its name, its tools, and the tools its
/// configuration marks as dangerous, where it marks any.
#[derive(Debug, Clone)]
pub struct ConnectionRecord {
    pub name: String,
    pub tools: Vec<ToolFacts>,
    pub dangerous_tools: Option<Vec<String>>,
}

/// Why a server could not be disconnected.
#[derive(Debug, Clone)]
pub enum RegistryError {
    ServerNotFound(String),
}

/// The connected servers, one record per name, and the ids of the approval
/// requests that wait for an answer.
pub struct McpRegistry {
    connections: Vec<ConnectionRecord>,
    pending: Vec<String>,
}

pub open spec fn record_names(cs: Seq<ConnectionRecord>) -> Seq<Seq<char>> {
    cs.map_values(|c: ConnectionRecord| c.name@)
}

pub open spec fn id_views(ids: Seq<String>) -> Seq<Seq<char>> {
    ids.map_values(|s: String| s@)
}

impl McpRegistry {
    /// The connections, in the order they were made.
    pub closed spec fn spec_connections(&self) -> Seq<ConnectionRecord> {
        self.connections@
    }

    /// The names of the connected servers.
    pub open spec fn spec_names(&self) -> Seq<Seq<char>> {
        record_names(self.spec_connections())
    }

    /// The ids of the requests waiting for an answer.
    pub closed spec fn spec_pending(&self) -> Set<Seq<char>> {
        Set::new(|x: Seq<char>| id_views(self.pending@).contains(x))
    }

    /// Each server is connected once.
    pub open spec fn well_formed(&self) -> bool {
        self.spec_names().no_duplicates()
    }

    /// Whether a server of this name is connected.
    pub open spec fn connected(&self, name: Seq<char>) -> bool {
        self.spec_names().contains(name)
    }

    /// The record of the connected server `name`.
    pub open spec fn record(&self, name: Seq<char>) -> ConnectionRecord {
        self.spec_connections()[self.spec_names().index_of(name)]
    }

    pub fn new() -> (r: Self)
        ensures
            r.well_formed(),
            r.spec_connections().len() == 0,
            r.spec_pending() == Set::<Seq<char>>::empty(),
    {
        let r = McpRegistry { connections: Vec::new(), pending: Vec::new() };
        assert(r.spec_names() =~= Seq::<Seq<char>>::empty());
        assert(r.spec_pending() =~= Set::<Seq<char>>::empty());
        r
    }

    fn position(&self, name: &str) -> (r: Option<usize>)
        ensures
            match r {
                Some(i) => i < self.spec_connections().len() && self.spec_names()[i as int] == name@,
                None => !self.connected(name@),
            },
    {
        let mut i: usize = 0;
        while i < self.connections.len()
            invariant
                i <= self.connections@.len(),
                forall|k: int| 0 <= k < i ==> self.connections@[k].name@ != name@,
            decreases self.connections@.len() - i,
        {
            if str_eq(self.connections[i].name.as_str(), name) {
                return Some(i);
            }
            i += 1;
        }
        proof {
            if self.spec_names().contains(name@) {
                let k = choose|k: int| 0 <= k < self.spec_names().len() && self.spec_names()[k] == name@;
                assert(self.connections@[k].name@ == name@);
            }
        }
        None
    }

    /// Whether the server is connected.
    pub fn is_connected(&self, name: &str) -> (b: bool)
        ensures
            b == self.connected(name@),
    {
        self.position(name).is_some()
    }

    /// Record a new connection. Connecting is idempotent: a server that is
    /// connected already is left as it is, and `false` says so.
    pub fn connect(&mut self, record: ConnectionRecord) -> (added: bool)
        requires
            old(self).well_formed(),
        ensures
            final(self).well_formed(),
            added == !old(self).connected(record.name@),
            added ==> final(self).spec_connections() == old(self).spec_connections().push(record),
            !added ==> final(self).spec_connections() == old(self).spec_connections(),
            final(self).spec_pending() == old(self).spec_pending(),
    {
        if self.is_connected(record.name.as_str()) {
            return false;
        }
        let ghost before = self.spec_names();
        self.connections.push(record);
        proof {
            assert(self.spec_names() =~= before.push(record.name@));
        }
        true
    }

    /// Drop a connection; a server that is not connected is an error.
    pub fn disconnect(&mut self, name: &str) -> (r: Result<(), RegistryError>)
        requires
            old(self).well_formed(),
        ensures
            final(self).well_formed(),
            r is Ok <==> old(self).connected(name@),
            r matches Err(RegistryError::ServerNotFound(n)) ==> n@ == name@,
            !final(self).connected(name@),
            forall|x: Seq<char>| x != name@ ==> (final(self).connected(x) <==> old(self).connected(x)),
            forall|x: Seq<char>| x != name@ && old(self).connected(x) ==> final(self).record(x) == old(self).record(x),
            final(self).spec_pending() == old(self).spec_pending(),
    {
        match self.position(name) {
            None => Err(RegistryError::ServerNotFound(String::from_str(name))),
            Some(i) => {
                let ghost before = self.spec_names();
                let ghost old_conns = self.connections@;
                self.connections.remove(i);
                proof {
                    assert(self.spec_names() =~= before.remove(i as int));
                    assert forall|a: int, b: int|
                        0 <= a < self.spec_names().len() && 0 <= b < self.spec_names().len() && a != b implies self.spec_names()[a]
                        != self.spec_names()[b] by {
                        let oa = if a < i { a } else { a + 1 };
                        let ob = if b < i { b } else { b + 1 };
                        assert(before[oa] != before[ob]);
                    }
                    assert forall|x: Seq<char>| x != name@ implies (self.connected(x) <==> before.contains(x)) by {
                        if before.contains(x) {
                            let k = choose|k: int| 0 <= k < before.len() && before[k] == x;
                            assert(k != i);
                            let nk = if k < i { k } else { k - 1 };
                            assert(self.spec_names()[nk] == x);
                        }
                        if self.spec_names().contains(x) {
                            let k = choose|k: int| 0 <= k < self.spec_names().len() && self.spec_names()[k] == x;
                            let ok = if k < i { k } else { k + 1 };
                            assert(before[ok] == x);
                        }
                    }
                    if self.spec_names().contains(name@) {
                        let k = choose|k: int| 0 <= k < self.spec_names().len() && self.spec_names()[k] == name@;
                        let ok = if k < i { k } else { k + 1 };
                        assert(before[ok] == before[i as int]);
                    }
                    assert forall|x: Seq<char>| x != name@ && before.contains(x) implies self.record(x) == old_conns[before.index_of(x)] by {
                        let k = before.index_of(x);
                        assert(k != i);
                        let nk = if k < i { k } else { k - 1 };
                        assert(self.spec_names()[nk] == x);
                        lemma_index_of_unique(self.spec_names(), x, nk);
                        lemma_index_of_unique(before, x, k);
                    }
                }
                Ok(())
            },
        }
    }

    /// The names of the connected servers and of their tools.
    pub fn list_connections(&self) -> (r: Vec<(String, Vec<String>)>)
        ensures
            r@.len() == self.spec_connections().len(),
            forall|i: int| 0 <= i < r@.len() ==> #[trigger] r@[i].0@ == self.spec_connections()[i].name@ && r@[i].1@.len()
                == self.spec_connections()[i].tools@.len() && forall|j: int|
                0 <= j < r@[i].1@.len() ==> #[trigger] r@[i].1@[j]@ == self.spec_connections()[i].tools@[j].name@,
    {
        let mut r: Vec<(String, Vec<String>)> = Vec::new();
        let mut i: usize = 0;
        while i < self.connections.len()
            invariant
                i <= self.connections@.len(),
                r@.len() == i,
                forall|q: int| 0 <= q < i ==> #[trigger] r@[q].0@ == self.connections@[q].name@ && r@[q].1@.len()
                    == self.connections@[q].tools@.len() && forall|j: int|
                    0 <= j < r@[q].1@.len() ==> #[trigger] r@[q].1@[j]@ == self.connections@[q].tools@[j].name@,
            decreases self.connections@.len() - i,
        {
            let c = &self.connections[i];
            let mut names: Vec<String> = Vec::new();
            let mut j: usize = 0;
            while j < c.tools.len()
                invariant
                    j <= c.tools@.len(),
                    names@.len() == j,
                    forall|k: int| 0 <= k < j ==> #[trigger] names@[k]@ == c.tools@[k].name@,
                decreases c.tools@.len() - j,
            {
                names.push(c.tools[j].name.clone());
                j += 1;
            }
            r.push((c.name.clone(), names));
            i += 1;
        }
        r
    }

    /// Whether calling `tool` on `server` needs the user's approval: where
    /// the server's configuration lists dangerous tools, when it lists the
    /// tool or `*`; otherwise by the tool's destructive hint, which the MCP
    /// specification takes as set where a server leaves it unset. A tool
    /// the server does not offer, or a server not connected, needs none.
    pub open spec fn dangerous(&self, server: Seq<char>, tool: Seq<char>) -> bool {
        if !self.connected(server) {
            false
        } else {
            let c = self.record(server);
            match c.dangerous_tools {
                Some(list) => exists|j: int|
                    0 <= j < list@.len() && (list@[j]@ == "*"@ || list@[j]@ == tool),
                None => match first_tool(c.tools@, tool) {
                    Some(k) => match c.tools@[k].destructive_hint {
                        Some(Some(h)) => h,
                        _ => true,
                    },
                    None => false,
                },
            }
        }
    }

    pub fn is_tool_dangerous(&self, server: &str, tool: &str) -> (b: bool)
        requires
            self.well_formed(),
        ensures
            b == self.dangerous(server@, tool@),
    {
        let i = match self.position(server) {
            None => {
                return false;
            },
            Some(i) => i,
        };
        let c = &self.connections[i];
        proof {
            lemma_index_of_unique(self.spec_names(), server@, i as int);
            assert(self.record(server@) == *c);
        }
        match &c.dangerous_tools {
            Some(list) => {
                assert(c.dangerous_tools == Some(*list));
                let mut j: usize = 0;
                while j < list.len()
                    invariant
                        j <= list@.len(),
                        self.connected(server@),
                        self.record(server@).dangerous_tools == Some(*list),
                        forall|k: int| 0 <= k < j ==> !(#[trigger] list@[k]@ == "*"@ || list@[k]@ == tool@),
                    decreases list@.len() - j,
                {
                    if str_eq(list[j].as_str(), "*") || str_eq(list[j].as_str(), tool) {
                        assert(list@[j as int]@ == "*"@ || list@[j as int]@ == tool@);
                        assert(self.connected(server@));
                        assert(self.record(server@).dangerous_tools == Some(*list));
                        let ghost l2 = self.record(server@).dangerous_tools->0;
                        assert(l2 == *list);
                        assert(l2@[j as int]@ == "*"@ || l2@[j as int]@ == tool@);
                        assert(self.dangerous(server@, tool@));
                        return true;
                    }
                    j += 1;
                }
                false
            },
            None => match find_tool(&c.tools, tool) {
                Some(k) => match c.tools[k].destructive_hint {
                    Some(Some(h)) => h,
                    _ => true,
                },
                None => false,
            },
        }
    }

    /// Record an approval request waiting for an answer.
    pub fn request_approval(&mut self, request_id: &str)
        requires
            old(self).well_formed(),
        ensures
            final(self).well_formed(),
            final(self).spec_connections() == old(self).spec_connections(),
            final(self).spec_pending() == old(self).spec_pending().insert(request_id@),
    {
        let ghost before = self.pending@;
        self.pending.push(String::from_str(request_id));
        proof {
            assert(id_views(self.pending@) =~= id_views(before).push(request_id@));
            lemma_push_contains(id_views(before), request_id@);
            assert forall|y: Seq<char>| self.spec_pending().contains(y) <==> old(self).spec_pending().insert(
                request_id@,
            ).contains(y) by {
                assert(self.spec_pending().contains(y) <==> id_views(self.pending@).contains(y));
                assert(old(self).spec_pending().contains(y) <==> id_views(before).contains(y));
            }
            assert(self.spec_pending() =~= old(self).spec_pending().insert(request_id@));
        }
    }

    /// Answer a waiting request; `false` where no request of that id waits
    /// (it was never made, or was answered already).
    pub fn resolve_approval(&mut self, request_id: &str) -> (found: bool)
        requires
            old(self).well_formed(),
        ensures
            final(self).well_formed(),
            found == old(self).spec_pending().contains(request_id@),
            final(self).spec_pending() == old(self).spec_pending().remove(request_id@),
            final(self).spec_connections() == old(self).spec_connections(),
    {
        let ghost before = id_views(self.pending@);
        let mut kept: Vec<String> = Vec::new();
        let mut found = false;
        let mut i: usize = 0;
        while i < self.pending.len()
            invariant
                i <= self.pending@.len(),
                before == id_views(self.pending@),
                found == before.subrange(0, i as int).contains(request_id@),
                forall|y: Seq<char>|
                    id_views(kept@).contains(y) <==> (before.subrange(0, i as int).contains(y) && y != request_id@),
            decreases self.pending@.len() - i,
        {
            let ghost pre = before.subrange(0, i as int);
            let ghost kv = id_views(kept@);
            let ghost x = self.pending@[i as int]@;
            proof {
                assert(before.subrange(0, i + 1) =~= pre.push(x));
                lemma_push_contains(pre, x);
            }
            if str_eq(self.pending[i].as_str(), request_id) {
                found = true;
                proof {
                    lemma_filter_step(pre, kv, x, request_id@);
                }
            } else {
                kept.push(self.pending[i].clone());
                proof {
                    assert(id_views(kept@) =~= kv.push(x));
                    lemma_filter_step(pre, kv, x, request_id@);
                }
            }
            i += 1;
        }
        proof {
            assert(before.subrange(0, i as int) =~= before);
        }
        self.pending = kept;
        proof {
            assert forall|y: Seq<char>| self.spec_pending().contains(y) <==> old(self).spec_pending().remove(
                request_id@,
            ).contains(y) by {
                assert(self.spec_pending().contains(y) <==> id_views(self.pending@).contains(y));
                assert(old(self).spec_pending().contains(y) <==> before.contains(y));
            }
            assert(self.spec_pending() =~= old(self).spec_pending().remove(request_id@));
            assert(old(self).spec_pending().contains(request_id@) <==> before.contains(request_id@));
        }
        found
    }
}

/// Keeping the elements other than `r` of `pre` and then of `x`.
proof fn lemma_filter_step(pre: Seq<Seq<char>>, kv: Seq<Seq<char>>, x: Seq<char>, r: Seq<char>)
    requires
        forall|y: Seq<char>| kv.contains(y) <==> (pre.contains(y) && y != r),
    ensures
        x == r ==> forall|y: Seq<char>| #[trigger] kv.contains(y) <==> (pre.push(x).contains(y) && y != r),
        x != r ==> forall|y: Seq<char>| #[trigger] kv.push(x).contains(y) <==> (pre.push(x).contains(y) && y != r),
{
    lemma_push_contains(pre, x);
    lemma_push_contains(kv, x);
    if x != r {
        assert forall|y: Seq<char>| #[trigger] kv.push(x).contains(y) <==> (pre.push(x).contains(y) && y != r) by {
            assert(kv.push(x).contains(y) <==> (kv.contains(y) || y == x));
            assert(pre.push(x).contains(y) <==> (pre.contains(y) || y == x));
            assert(kv.contains(y) <==> (pre.contains(y) && y != r));
        }
    }
}

/// Appending `x` adds `x` and keeps the rest.
proof fn lemma_push_contains(s: Seq<Seq<char>>, x: Seq<char>)
    ensures
        forall|y: Seq<char>| #[trigger] s.push(x).contains(y) <==> (s.contains(y) || y == x),
{
    assert forall|y: Seq<char>| s.push(x).contains(y) <==> (s.contains(y) || y == x) by {
        if s.push(x).contains(y) {
            let k = choose|k: int| 0 <= k < s.push(x).len() && s.push(x)[k] == y;
            if k < s.len() {
                assert(s[k] == y);
            }
        }
        if s.contains(y) {
            let k = choose|k: int| 0 <= k < s.len() && s[k] == y;
            assert(s.push(x)[k] == y);
        }
        if y == x {
            assert(s.push(x)[s.len() as int] == x);
        }
    }
}

/// In a list without repeats, the place of an element is the one it is at.
proof fn lemma_index_of_unique(s: Seq<Seq<char>>, x: Seq<char>, k: int)
    requires
        s.no_duplicates(),
        0 <= k < s.len(),
        s[k] == x,
    ensures
        s.index_of(x) == k,
{
    let c = s.index_of(x);
    assert(0 <= c < s.len() && s[c] == x);
}

/// The first tool of the list with this name.
pub open spec fn first_tool(tools: Seq<ToolFacts>, name: Seq<char>) -> Option<int> {
    if exists|k: int| 0 <= k < tools.len() && tools[k].name@ == name {
        Some(choose|k: int| 0 <= k < tools.len() && tools[k].name@ == name && forall|q: int| 0 <= q < k ==> tools[q].name@ != name)
    } else {
        None
    }
}

fn find_tool(tools: &Vec<ToolFacts>, name: &str) -> (r: Option<usize>)
    ensures
        match r {
            Some(k) => k < tools@.len() && first_tool(tools@, name@) == Some(k as int),
            None => first_tool(tools@, name@) is None,
        },
{
    let mut k: usize = 0;
    while k < tools.len()
        invariant
            k <= tools@.len(),
            forall|q: int| 0 <= q < k ==> tools@[q].name@ != name@,
        decreases tools@.len() - k,
    {
        if str_eq(tools[k].name.as_str(), name) {
            proof {
                let c = choose|c: int|
                    0 <= c < tools@.len() && tools@[c].name@ == name@ && forall|q: int| 0 <= q < c ==> tools@[q].name@ != name@;
                if c < k {
                    assert(tools@[c].name@ != name@);
                }
                if c > k {
                    assert(tools@[k as int].name@ != name@);
                }
            }
            return Some(k);
        }
        k += 1;
    }
    None
}

/// A request that was made is answered once: the first answer finds it,
/// a second does not.
pub proof fn lemma_request_answered_once(before: Set<Seq<char>>, id: Seq<char>)
    ensures
        before.insert(id).contains(id),
        !before.insert(id).remove(id).contains(id),
{
}

} // verus!
