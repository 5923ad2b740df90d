//! The signature of a finished workflow, read from its task graph: the
//! dependency shape, the roles by how many tasks took them, the depth and
//! the critical path.
use vstd::prelude::*;
use crate::text::str_eq;
use crate::types::{shape_of, DependencyShape, WorkflowSignature};

verus! {

/// One task of a graph as analytics reads it. Parent, children and
/// dependencies are positions in the graph's node list.
#[derive(Debug, Clone)]
pub struct GraphNode {
    pub parent: Option<usize>,
    pub role: Option<String>,
    pub children: Vec<usize>,
    pub dependencies: Vec<usize>,
    /// How many tasks the graph counts from this one up to its root.
    pub ancestor_chain_len: usize,
}

/// What analytics reads of a task graph: the nodes, and an order of them
/// that the graph gives where it has no cycle.
#[derive(Debug, Clone)]
pub struct GraphSnapshot {
    pub nodes: Vec<GraphNode>,
    pub topological_order: Option<Vec<usize>>,
}

impl GraphSnapshot {
    /// Every position in the snapshot names one of its nodes.
    pub open spec fn wf(&self) -> bool {
        let n = self.nodes@.len();
        &&& forall|i: int, j: int|
            0 <= i < n && 0 <= j < self.nodes@[i].children@.len() ==> #[trigger] self.nodes@[i].children@[j] < n
        &&& forall|i: int, j: int|
            0 <= i < n && 0 <= j < self.nodes@[i].dependencies@.len() ==> #[trigger] self.nodes@[i].dependencies@[j]
                < n
        &&& match self.topological_order {
            Some(o) => forall|k: int| 0 <= k < o@.len() ==> #[trigger] o@[k] < n,
            None => true,
        }
    }
}

/// Whether the task at `u` links to `v`, as its child or its dependency.
pub open spec fn links(nodes: Seq<GraphNode>, u: int, v: usize) -> bool {
    nodes[u].children@.contains(v) || nodes[u].dependencies@.contains(v)
}

/// The length of the longest run of links that ends at the task in place
/// `i` of `order`, each link going from a task earlier in the order.
pub open spec fn level(nodes: Seq<GraphNode>, order: Seq<usize>, i: int) -> nat
    decreases i, 1int,
{
    if i < 0 || i >= order.len() {
        0
    } else {
        reach(nodes, order, order[i], i)
    }
}

/// The longest run of links into `v` from the first `k` tasks of `order`.
pub open spec fn reach(nodes: Seq<GraphNode>, order: Seq<usize>, v: usize, k: int) -> nat
    decreases k, 0int,
{
    if k <= 0 {
        0
    } else {
        let prev = reach(nodes, order, v, k - 1);
        if links(nodes, order[k - 1] as int, v) {
            let via = level(nodes, order, k - 1) + 1;
            if prev >= via {
                prev
            } else {
                via
            }
        } else {
            prev
        }
    }
}

/// The largest level among the first `k` places of `order`.
pub open spec fn max_level(nodes: Seq<GraphNode>, order: Seq<usize>, k: int) -> nat
    decreases k,
{
    if k <= 0 {
        0
    } else {
        let a = max_level(nodes, order, k - 1);
        let b = level(nodes, order, k - 1);
        if a >= b {
            a
        } else {
            b
        }
    }
}

/// The critical path length: the longest run of links along the graph's
/// order, or 0 where the graph gives none.
pub open spec fn critical_path(g: GraphSnapshot) -> nat {
    match g.topological_order {
        Some(o) => max_level(g.nodes@, o@, o@.len() as int),
        None => 0,
    }
}

/// A task's depth: its ancestor chain without itself.
pub open spec fn node_depth(n: GraphNode) -> nat {
    if n.ancestor_chain_len >= 1 {
        (n.ancestor_chain_len - 1) as nat
    } else {
        0
    }
}

/// The largest depth among the first `k` tasks.
pub open spec fn max_depth(nodes: Seq<GraphNode>, k: int) -> nat
    decreases k,
{
    if k <= 0 {
        0
    } else {
        let a = max_depth(nodes, k - 1);
        let b = node_depth(nodes[k - 1]);
        if a >= b {
            a
        } else {
            b
        }
    }
}

proof fn lemma_reach_bound(nodes: Seq<GraphNode>, order: Seq<usize>, v: usize, k: int)
    requires
        0 <= k <= order.len(),
    ensures
        reach(nodes, order, v, k) <= k,
    decreases k,
{
    if k > 0 {
        lemma_reach_bound(nodes, order, v, k - 1);
        lemma_reach_bound(nodes, order, order[k - 1], k - 1);
        assert(level(nodes, order, k - 1) == reach(nodes, order, order[k - 1], k - 1));
    }
}

/// Raise every listed position of `dist` to at least `value`.
fn raise_all(dist: &mut Vec<usize>, targets: &Vec<usize>, value: usize)
    requires
        forall|j: int| 0 <= j < targets@.len() ==> #[trigger] targets@[j] < old(dist)@.len(),
    ensures
        final(dist)@.len() == old(dist)@.len(),
        forall|v: usize|
            v < old(dist)@.len() ==> #[trigger] final(dist)@[v as int] == if targets@.contains(v) {
                if old(dist)@[v as int] >= value {
                    old(dist)@[v as int]
                } else {
                    value
                }
            } else {
                old(dist)@[v as int]
            },
{
    let ghost d0 = dist@;
    let mut m: usize = 0;
    while m < targets.len()
        invariant
            m <= targets@.len(),
            dist@.len() == d0.len(),
            d0 == old(dist)@,
            forall|j: int| 0 <= j < targets@.len() ==> #[trigger] targets@[j] < d0.len(),
            forall|v: usize|
                v < d0.len() ==> #[trigger] dist@[v as int] == if targets@.subrange(0, m as int).contains(v) {
                    if d0[v as int] >= value {
                        d0[v as int]
                    } else {
                        value
                    }
                } else {
                    d0[v as int]
                },
        decreases targets@.len() - m,
    {
        let t = targets[m];
        if dist[t] < value {
            dist.set(t, value);
        }
        proof {
            assert forall|v: usize| v < d0.len() implies #[trigger] dist@[v as int] == if targets@.subrange(
                0,
                m + 1,
            ).contains(v) {
                if d0[v as int] >= value {
                    d0[v as int]
                } else {
                    value
                }
            } else {
                d0[v as int]
            } by {
                let s0 = targets@.subrange(0, m as int);
                let s1 = targets@.subrange(0, m + 1);
                assert(s1 == s0.push(t));
                if s0.contains(v) {
                    let w = choose|w: int| 0 <= w < s0.len() && s0[w] == v;
                    assert(s1[w] == v);
                }
                if s1.contains(v) && v != t {
                    let w = choose|w: int| 0 <= w < s1.len() && s1[w] == v;
                    assert(s1[m as int] == t);
                    assert(w < m);
                    assert(s0[w] == v);
                }
                if v == t {
                    assert(s1[m as int] == t);
                }
            }
        }
        m += 1;
    }
    assert(targets@.subrange(0, targets@.len() as int) == targets@);
}

/// The critical path length of a graph.
fn critical_path_length(g: &GraphSnapshot) -> (r: usize)
    requires
        g.wf(),
    ensures
        r == critical_path(*g),
{
    match &g.topological_order {
        None => 0,
        Some(order) => {
            let n = g.nodes.len();
            let ghost nodes = g.nodes@;
            let mut dist: Vec<usize> = Vec::new();
            let mut z: usize = 0;
            while z < n
                invariant
                    z <= n,
                    n == g.nodes@.len(),
                    dist@.len() == z,
                    forall|v: int| 0 <= v < z ==> #[trigger] dist@[v] == 0,
                decreases n - z,
            {
                dist.push(0);
                z += 1;
            }
            assert(forall|q: int| 0 <= q < order@.len() ==> #[trigger] order@[q] < n);
            let mut best: usize = 0;
            let mut k: usize = 0;
            while k < order.len()
                invariant
                    k <= order@.len(),
                    g.wf(),
                    g.topological_order == Some(*order),
                    forall|q: int| 0 <= q < order@.len() ==> #[trigger] order@[q] < n,
                    nodes == g.nodes@,
                    n == nodes.len(),
                    dist@.len() == n,
                    forall|v: usize| v < n ==> #[trigger] dist@[v as int] == reach(nodes, order@, v, k as int),
                    best == max_level(nodes, order@, k as int),
                decreases order@.len() - k,
            {
                let id = order[k];
                assert(id < n);
                let d = dist[id];
                assert(d == level(nodes, order@, k as int));
                proof {
                    lemma_reach_bound(nodes, order@, id, k as int);
                }
                if d > best {
                    best = d;
                }
                let ghost before = dist@;
                raise_all(&mut dist, &g.nodes[id].children, d + 1);
                raise_all(&mut dist, &g.nodes[id].dependencies, d + 1);
                proof {
                    assert forall|v: usize| v < n implies #[trigger] dist@[v as int] == reach(
                        nodes,
                        order@,
                        v,
                        k + 1,
                    ) by {
                        assert(before[v as int] == reach(nodes, order@, v, k as int));
                    }
                }
                k += 1;
            }
            best
        },
    }
}

/// The largest task depth of a graph.
fn graph_depth(nodes: &Vec<GraphNode>) -> (r: usize)
    ensures
        r == max_depth(nodes@, nodes@.len() as int),
{
    let mut best: usize = 0;
    let mut i: usize = 0;
    while i < nodes.len()
        invariant
            i <= nodes@.len(),
            best == max_depth(nodes@, i as int),
        decreases nodes@.len() - i,
    {
        let c = nodes[i].ancestor_chain_len;
        let d = if c >= 1 {
            c - 1
        } else {
            0
        };
        if d > best {
            best = d;
        }
        i += 1;
    }
    best
}

/// Whether a task took role `r`.
pub open spec fn has_role(n: GraphNode, r: Seq<char>) -> bool {
    match n.role {
        Some(x) => x@ == r,
        None => false,
    }
}

/// How many of the first `k` tasks took role `r`.
pub open spec fn role_count_in(nodes: Seq<GraphNode>, r: Seq<char>, k: int) -> nat
    decreases k,
{
    if k <= 0 {
        0
    } else {
        role_count_in(nodes, r, k - 1) + if has_role(nodes[k - 1], r) {
            1nat
        } else {
            0nat
        }
    }
}

/// How many tasks of the graph took role `r`.
pub open spec fn role_tally(nodes: Seq<GraphNode>, r: Seq<char>) -> nat {
    role_count_in(nodes, r, nodes.len() as int)
}

/// `rs` lists each role of the graph once, the roles that more tasks took
/// first.
pub open spec fn roles_by_use(nodes: Seq<GraphNode>, rs: Seq<Seq<char>>) -> bool {
    &&& forall|i: int, j: int| 0 <= i < j < rs.len() ==> #[trigger] rs[i] != #[trigger] rs[j]
    &&& forall|i: int| 0 <= i < rs.len() ==> role_tally(nodes, #[trigger] rs[i]) > 0
    &&& forall|k: int|
        0 <= k < nodes.len() && (#[trigger] nodes[k]).role is Some ==> rs.contains(nodes[k].role->0@)
    &&& forall|i: int, j: int|
        0 <= i < j < rs.len() ==> role_tally(nodes, #[trigger] rs[i]) >= role_tally(nodes, #[trigger] rs[j])
}

/// The dependency counts of the tasks that have a parent, among the first
/// `k`, in order.
pub open spec fn child_dependency_counts(nodes: Seq<GraphNode>, k: int) -> Seq<usize>
    decreases k,
{
    if k <= 0 {
        Seq::empty()
    } else if nodes[k - 1].parent is Some {
        child_dependency_counts(nodes, k - 1).push(nodes[k - 1].dependencies@.len() as usize)
    } else {
        child_dependency_counts(nodes, k - 1)
    }
}

proof fn lemma_role_count_bound(nodes: Seq<GraphNode>, r: Seq<char>, k: int)
    requires
        0 <= k,
    ensures
        role_count_in(nodes, r, k) <= k,
    decreases k,
{
    if k > 0 {
        lemma_role_count_bound(nodes, r, k - 1);
    }
}

/// The distinct roles of the graph, first taken first, with how many tasks
/// took each.
fn tally_roles(nodes: &Vec<GraphNode>) -> (r: (Vec<String>, Vec<usize>))
    ensures
        r.0@.len() == r.1@.len(),
        forall|i: int, j: int| 0 <= i < j < r.0@.len() ==> #[trigger] r.0@[i]@ != #[trigger] r.0@[j]@,
        forall|i: int|
            0 <= i < r.0@.len() ==> #[trigger] r.1@[i] == role_tally(nodes@, r.0@[i]@) && r.1@[i] > 0,
        forall|k: int|
            0 <= k < nodes@.len() && (#[trigger] nodes@[k]).role is Some ==> exists|i: int|
                0 <= i < r.0@.len() && r.0@[i]@ == nodes@[k].role->0@,
{
    let mut names: Vec<String> = Vec::new();
    let mut counts: Vec<usize> = Vec::new();
    let mut k: usize = 0;
    while k < nodes.len()
        invariant
            k <= nodes@.len(),
            names@.len() == counts@.len(),
            forall|i: int, j: int| 0 <= i < j < names@.len() ==> #[trigger] names@[i]@ != #[trigger] names@[j]@,
            forall|i: int|
                0 <= i < names@.len() ==> #[trigger] counts@[i] == role_count_in(nodes@, names@[i]@, k as int)
                    && counts@[i] > 0,
            forall|q: int|
                0 <= q < k && (#[trigger] nodes@[q]).role is Some ==> exists|i: int|
                    0 <= i < names@.len() && names@[i]@ == nodes@[q].role->0@,
        decreases nodes@.len() - k,
    {
        let ghost n0 = names@;
        let ghost c0 = counts@;
        match &nodes[k].role {
            None => {
                proof {
                    assert forall|i: int| 0 <= i < names@.len() implies #[trigger] counts@[i] == role_count_in(
                        nodes@,
                        names@[i]@,
                        k + 1,
                    ) && counts@[i] > 0 by {
                        assert(!has_role(nodes@[k as int], names@[i]@));
                    }
                }
            },
            Some(x) => {
                let found = find_name(&names, x.as_str());
                match found {
                    Some(i) => {
                        proof {
                            lemma_role_count_bound(nodes@, x@, k as int);
                        }
                        let c = counts[i];
                        counts.set(i, c + 1);
                        proof {
                            assert forall|j: int| 0 <= j < names@.len() implies #[trigger] counts@[j]
                                == role_count_in(nodes@, names@[j]@, k + 1) && counts@[j] > 0 by {
                                if j != i {
                                    assert(names@[j]@ != names@[i as int]@);
                                    assert(!has_role(nodes@[k as int], names@[j]@));
                                }
                            }
                            assert forall|q: int|
                                0 <= q < k + 1 && (#[trigger] nodes@[q]).role is Some implies exists|j: int|
                                    0 <= j < names@.len() && names@[j]@ == nodes@[q].role->0@ by {
                                if q == k {
                                    assert(names@[i as int]@ == x@);
                                }
                            }
                        }
                    },
                    None => {
                        names.push(x.clone());
                        counts.push(1);
                        proof {
                            assert forall|q: int| 0 <= q < k implies !has_role(#[trigger] nodes@[q], x@) by {
                                if nodes@[q].role is Some && nodes@[q].role->0@ == x@ {
                                    let j = choose|j: int| 0 <= j < n0.len() && n0[j]@ == nodes@[q].role->0@;
                                    assert(n0[j]@ == x@);
                                }
                            }
                            lemma_role_count_absent(nodes@, x@, k as int);
                            assert forall|j: int| 0 <= j < names@.len() implies #[trigger] counts@[j]
                                == role_count_in(nodes@, names@[j]@, k + 1) && counts@[j] > 0 by {
                                if j < n0.len() {
                                    assert(names@[j] == n0[j]);
                                    assert(!has_role(nodes@[k as int], names@[j]@));
                                }
                            }
                            assert forall|a: int, b: int| 0 <= a < b < names@.len() implies #[trigger] names@[a]@
                                != #[trigger] names@[b]@ by {
                                if b == n0.len() {
                                    assert(names@[a] == n0[a]);
                                }
                            }
                            assert forall|q: int|
                                0 <= q < k + 1 && (#[trigger] nodes@[q]).role is Some implies exists|j: int|
                                    0 <= j < names@.len() && names@[j]@ == nodes@[q].role->0@ by {
                                if q == k {
                                    assert(names@[n0.len() as int]@ == x@);
                                } else {
                                    let j = choose|j: int| 0 <= j < n0.len() && n0[j]@ == nodes@[q].role->0@;
                                    assert(names@[j] == n0[j]);
                                }
                            }
                        }
                    },
                }
            },
        }
        k += 1;
    }
    (names, counts)
}

/// The place of `x` among `names`.
fn find_name(names: &Vec<String>, x: &str) -> (r: Option<usize>)
    ensures
        match r {
            Some(i) => i < names@.len() && names@[i as int]@ == x@,
            None => forall|j: int| 0 <= j < names@.len() ==> #[trigger] names@[j]@ != x@,
        },
{
    let mut i: usize = 0;
    while i < names.len()
        invariant
            i <= names@.len(),
            forall|j: int| 0 <= j < i ==> #[trigger] names@[j]@ != x@,
        decreases names@.len() - i,
    {
        if str_eq(names[i].as_str(), x) {
            return Some(i);
        }
        i += 1;
    }
    None
}

/// A role that none of the first `k` tasks took has count 0 there.
proof fn lemma_role_count_absent(nodes: Seq<GraphNode>, r: Seq<char>, k: int)
    requires
        forall|q: int| 0 <= q < k ==> !has_role(#[trigger] nodes[q], r),
    ensures
        role_count_in(nodes, r, k) == 0,
    decreases k,
{
    if k > 0 {
        lemma_role_count_absent(nodes, r, k - 1);
    }
}

/// The first place in `counts` whose count is below `c`, or its length.
fn first_below(counts: &Vec<usize>, c: usize) -> (p: usize)
    ensures
        p <= counts@.len(),
        forall|a: int| 0 <= a < p ==> #[trigger] counts@[a] >= c,
        p < counts@.len() ==> counts@[p as int] < c,
{
    let mut p: usize = 0;
    while p < counts.len() && counts[p] >= c
        invariant
            p <= counts@.len(),
            forall|a: int| 0 <= a < p ==> #[trigger] counts@[a] >= c,
        decreases counts@.len() - p,
    {
        p += 1;
    }
    p
}

/// The views of a list of strings.
pub open spec fn views(v: Seq<String>) -> Seq<Seq<char>> {
    v.map_values(|x: String| x@)
}

/// No text occurs twice.
pub open spec fn all_distinct(s: Seq<Seq<char>>) -> bool {
    forall|i: int, j: int| 0 <= i < j < s.len() ==> #[trigger] s[i] != #[trigger] s[j]
}

/// The counts never grow along the list.
pub open spec fn non_increasing(s: Seq<usize>) -> bool {
    forall|a: int, b: int| 0 <= a < b < s.len() ==> #[trigger] s[a] >= #[trigger] s[b]
}

proof fn lemma_views_insert(v: Seq<String>, p: int, x: String)
    requires
        0 <= p <= v.len(),
    ensures
        views(v.insert(p, x)) == views(v).insert(p, x@),
{
    assert(views(v.insert(p, x)) =~= views(v).insert(p, x@));
}

proof fn lemma_insert_non_increasing(s: Seq<usize>, p: int, c: usize)
    requires
        0 <= p <= s.len(),
        non_increasing(s),
        forall|a: int| 0 <= a < p ==> #[trigger] s[a] >= c,
        forall|a: int| p <= a < s.len() ==> #[trigger] s[a] < c,
    ensures
        non_increasing(s.insert(p, c)),
{
    let t = s.insert(p, c);
    assert forall|a: int, b: int| 0 <= a < b < t.len() implies #[trigger] t[a] >= #[trigger] t[b] by {
        if b < p {
            assert(t[a] == s[a] && t[b] == s[b]);
        } else if b == p {
            assert(t[a] == s[a]);
        } else if a < p {
            assert(t[a] == s[a] && t[b] == s[b - 1]);
        } else if a == p {
            assert(t[b] == s[b - 1]);
        } else {
            assert(t[a] == s[a - 1] && t[b] == s[b - 1]);
        }
    }
}

proof fn lemma_insert_distinct(s: Seq<Seq<char>>, p: int, x: Seq<char>)
    requires
        0 <= p <= s.len(),
        all_distinct(s),
        !s.contains(x),
    ensures
        all_distinct(s.insert(p, x)),
{
    let t = s.insert(p, x);
    assert forall|a: int, b: int| 0 <= a < b < t.len() implies #[trigger] t[a] != #[trigger] t[b] by {
        if b < p {
            assert(t[a] == s[a] && t[b] == s[b]);
        } else if b == p {
            assert(t[a] == s[a]);
        } else if a < p {
            assert(t[a] == s[a] && t[b] == s[b - 1]);
        } else if a == p {
            assert(t[b] == s[b - 1]);
        } else {
            assert(t[a] == s[a - 1] && t[b] == s[b - 1]);
        }
    }
}

/// Inserting `x` keeps what was listed and adds `x`.
proof fn lemma_insert_contains(s: Seq<Seq<char>>, p: int, x: Seq<char>)
    requires
        0 <= p <= s.len(),
    ensures
        forall|y: Seq<char>| s.insert(p, x).contains(y) <==> (s.contains(y) || y == x),
{
    let t = s.insert(p, x);
    assert forall|y: Seq<char>| t.contains(y) <==> (s.contains(y) || y == x) by {
        if t.contains(y) {
            let i = choose|i: int| 0 <= i < t.len() && t[i] == y;
            if i < p {
                assert(s[i] == y);
            } else if i > p {
                assert(s[i - 1] == y);
            }
        }
        if s.contains(y) {
            let i = choose|i: int| 0 <= i < s.len() && s[i] == y;
            if i < p {
                assert(t[i] == y);
            } else {
                assert(t[i + 1] == y);
            }
        }
        if y == x {
            assert(t[p] == x);
        }
    }
}

/// The roles by how many tasks took them, most first; roles taken equally
/// often keep their order.
fn order_by_use(nodes: &Vec<GraphNode>, names: &Vec<String>, counts: &Vec<usize>) -> (r: Vec<String>)
    requires
        names@.len() == counts@.len(),
        all_distinct(views(names@)),
        forall|i: int| 0 <= i < names@.len() ==> #[trigger] counts@[i] == role_tally(nodes@, names@[i]@),
    ensures
        all_distinct(views(r@)),
        forall|y: Seq<char>| views(r@).contains(y) <==> views(names@).contains(y),
        forall|i: int| 0 <= i < r@.len() ==> #[trigger] views(r@)[i] == r@[i]@,
        forall|i: int, j: int|
            0 <= i < j < r@.len() ==> role_tally(nodes@, #[trigger] r@[i]@) >= role_tally(nodes@, #[trigger] r@[j]@),
{
    let ghost nv = views(names@);
    let mut out: Vec<String> = Vec::new();
    let mut outc: Vec<usize> = Vec::new();
    let mut j: usize = 0;
    while j < names.len()
        invariant
            j <= names@.len(),
            names@.len() == counts@.len(),
            nv == views(names@),
            all_distinct(nv),
            forall|i: int| 0 <= i < names@.len() ==> #[trigger] counts@[i] == role_tally(nodes@, names@[i]@),
            outc@.len() == out@.len(),
            forall|i: int| 0 <= i < out@.len() ==> #[trigger] outc@[i] == role_tally(nodes@, out@[i]@),
            non_increasing(outc@),
            all_distinct(views(out@)),
            forall|y: Seq<char>| views(out@).contains(y) <==> nv.take(j as int).contains(y),
        decreases names@.len() - j,
    {
        let c = counts[j];
        let p = first_below(&outc, c);
        let ghost o0 = out@;
        let ghost oc0 = outc@;
        let ghost x = names@[j as int];
        proof {
            assert forall|a: int| p <= a < oc0.len() implies #[trigger] oc0[a] < c by {
                if a > p {
                    assert(oc0[p as int] >= oc0[a]);
                }
            }
            assert(nv[j as int] == x@);
            if views(o0).contains(x@) {
                assert(nv.take(j as int).contains(x@));
                let q = choose|q: int| 0 <= q < j && nv.take(j as int)[q] == x@;
                assert(nv[q] == nv[j as int]);
            }
            lemma_insert_distinct(views(o0), p as int, x@);
            lemma_insert_contains(views(o0), p as int, x@);
            lemma_insert_non_increasing(oc0, p as int, c);
            assert(nv.take(j + 1) == nv.take(j as int).push(x@));
            lemma_insert_contains(nv.take(j as int), j as int, x@);
            assert(nv.take(j as int).insert(j as int, x@) == nv.take(j as int).push(x@));
        }
        out.insert(p, names[j].clone());
        outc.insert(p, c);
        proof {
            let y = out@[p as int];
            assert(out@ == o0.insert(p as int, y));
            lemma_views_insert(o0, p as int, y);
            assert(y@ == x@);
            assert forall|z: Seq<char>| views(out@).contains(z) <==> nv.take(j + 1).contains(z) by {
                assert(views(o0).contains(z) <==> nv.take(j as int).contains(z));
            }
            assert forall|i: int| 0 <= i < out@.len() implies #[trigger] outc@[i] == role_tally(nodes@, out@[i]@) by {
                if i < p {
                    assert(outc@[i] == oc0[i] && out@[i] == o0[i]);
                } else if i > p {
                    assert(outc@[i] == oc0[i - 1] && out@[i] == o0[i - 1]);
                }
            }
        }
        j += 1;
    }
    proof {
        assert(nv.take(j as int) == nv);
        assert forall|i: int| 0 <= i < out@.len() implies #[trigger] views(out@)[i] == out@[i]@ by {}
        assert forall|a: int, b: int| 0 <= a < b < out@.len() implies role_tally(nodes@, #[trigger] out@[a]@)
            >= role_tally(nodes@, #[trigger] out@[b]@) by {
            assert(outc@[a] >= outc@[b]);
        }
    }
    out
}

/// The dependency counts of the tasks that have a parent, in order.
fn child_dependencies(nodes: &Vec<GraphNode>) -> (r: Vec<usize>)
    ensures
        r@ == child_dependency_counts(nodes@, nodes@.len() as int),
{
    let mut r: Vec<usize> = Vec::new();
    let mut k: usize = 0;
    while k < nodes.len()
        invariant
            k <= nodes@.len(),
            r@ == child_dependency_counts(nodes@, k as int),
        decreases nodes@.len() - k,
    {
        if nodes[k].parent.is_some() {
            r.push(nodes[k].dependencies.len());
        }
        k += 1;
    }
    r
}

/// `s` is the signature of graph `g`: its dependency shape, its roles by
/// use, the largest task depth and the critical path length.
pub open spec fn signature_of(g: GraphSnapshot, s: WorkflowSignature) -> bool {
    let nodes = g.nodes@;
    &&& s.shape == shape_of(nodes.len() as nat, child_dependency_counts(nodes, nodes.len() as int))
    &&& roles_by_use(nodes, views(s.roles_used@))
    &&& s.role_count == s.roles_used@.len()
    &&& s.depth == max_depth(nodes, nodes.len() as int)
    &&& s.critical_path_length == critical_path(g)
}

impl WorkflowSignature {
    /// The signature of a finished workflow's graph. Roles that the same
    /// number of tasks took come in the order in which the graph lists them.
    pub fn from_graph(graph: &GraphSnapshot) -> (s: WorkflowSignature)
        requires
            graph.wf(),
        ensures
            signature_of(*graph, s),
    {
        let nodes = &graph.nodes;
        let deps = child_dependencies(nodes);
        let shape = DependencyShape::classify(nodes.len(), deps.as_slice());
        let (names, counts) = tally_roles(nodes);
        proof {
            assert forall|i: int, j: int| 0 <= i < j < views(names@).len() implies #[trigger] views(names@)[i]
                != #[trigger] views(names@)[j] by {
                assert(names@[i]@ != names@[j]@);
            }
        }
        let roles_used = order_by_use(nodes, &names, &counts);
        proof {
            let rs = views(roles_used@);
            let nv = views(names@);
            assert forall|i: int| 0 <= i < rs.len() implies role_tally(nodes@, #[trigger] rs[i]) > 0 by {
                assert(rs.contains(rs[i]));
                assert(nv.contains(rs[i]));
                let q = choose|q: int| 0 <= q < nv.len() && nv[q] == rs[i];
                assert(counts@[q] > 0);
            }
            assert forall|k: int|
                0 <= k < nodes@.len() && (#[trigger] nodes@[k]).role is Some implies rs.contains(
                nodes@[k].role->0@,
            ) by {
                let i = choose|i: int| 0 <= i < names@.len() && names@[i]@ == nodes@[k].role->0@;
                assert(nv[i] == names@[i]@);
                assert(nv.contains(nodes@[k].role->0@));
            }
            assert forall|i: int, j: int| 0 <= i < j < rs.len() implies role_tally(nodes@, #[trigger] rs[i])
                >= role_tally(nodes@, #[trigger] rs[j]) by {
                assert(rs[i] == roles_used@[i]@ && rs[j] == roles_used@[j]@);
            }
        }
        let depth = graph_depth(nodes);
        let critical_path_length = critical_path_length(graph);
        WorkflowSignature { shape, role_count: roles_used.len(), roles_used, depth, critical_path_length }
    }
}

/// A signature's depth is the depth of the deepest task: no task's ancestor
/// chain is longer than the depth plus one, and, unless the graph has no
/// task, some task's chain is exactly that long (or the deepest chain is
/// empty and the depth is 0). This holds whatever order the graph lists its
/// tasks in.
pub proof fn lemma_depth_is_deepest_task(g: GraphSnapshot, s: WorkflowSignature)
    requires
        signature_of(g, s),
    ensures
        forall|i: int| 0 <= i < g.nodes@.len() ==> (#[trigger] g.nodes@[i]).ancestor_chain_len <= s.depth + 1,
        g.nodes@.len() > 0 ==> exists|i: int|
            0 <= i < g.nodes@.len() && (#[trigger] g.nodes@[i]).ancestor_chain_len <= 1 && s.depth == 0 || 0 <= i
                < g.nodes@.len() && g.nodes@[i].ancestor_chain_len == s.depth + 1,
        g.nodes@.len() == 0 ==> s.depth == 0,
{
    lemma_max_depth_bounds(g.nodes@, g.nodes@.len() as int);
}

proof fn lemma_max_depth_bounds(nodes: Seq<GraphNode>, k: int)
    requires
        0 <= k <= nodes.len(),
    ensures
        forall|i: int| 0 <= i < k ==> (#[trigger] nodes[i]).ancestor_chain_len <= max_depth(nodes, k) + 1,
        k > 0 ==> exists|i: int|
            0 <= i < k && (#[trigger] nodes[i]).ancestor_chain_len <= 1 && max_depth(nodes, k) == 0 || 0 <= i < k
                && nodes[i].ancestor_chain_len == max_depth(nodes, k) + 1,
        k == 0 ==> max_depth(nodes, k) == 0,
    decreases k,
{
    if k > 0 {
        lemma_max_depth_bounds(nodes, k - 1);
        let n = nodes[k - 1];
        if k - 1 > 0 {
            let i = choose|i: int|
                0 <= i < k - 1 && (#[trigger] nodes[i]).ancestor_chain_len <= 1 && max_depth(nodes, k - 1) == 0 || 0
                    <= i < k - 1 && nodes[i].ancestor_chain_len == max_depth(nodes, k - 1) + 1;
            if max_depth(nodes, k - 1) >= node_depth(n) {
                assert(nodes[i].ancestor_chain_len <= 1 && max_depth(nodes, k) == 0 || nodes[i].ancestor_chain_len
                    == max_depth(nodes, k) + 1);
            } else {
                assert(nodes[k - 1].ancestor_chain_len == max_depth(nodes, k) + 1);
            }
        } else {
            assert(nodes[0].ancestor_chain_len <= 1 && max_depth(nodes, k) == 0 || nodes[0].ancestor_chain_len
                == max_depth(nodes, k) + 1);
        }
    }
}

} // verus!
