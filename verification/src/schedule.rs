//! Wave scheduling of a dependency graph over task indices.
//!
//! `deps[i]` lists the indices of the tasks that task `i` depends on.
//! Tasks are grouped into waves: a task runs in the wave right after the
//! last of its dependencies (Kahn's algorithm, layer by layer).
use vstd::prelude::*;
use vstd::set_lib::*;

verus! {

/// The dependency lists as plain sequences.
pub open spec fn dep_graph(deps: Seq<Vec<usize>>) -> Seq<Seq<usize>> {
    deps.map_values(|v: Vec<usize>| v@)
}

/// Every dependency names an existing task.
pub open spec fn deps_in_range(g: Seq<Seq<usize>>) -> bool {
    forall|i: int, k: int| 0 <= i < g.len() && 0 <= k < g[i].len() ==> #[trigger] g[i][k] < g.len()
}

/// One more than the largest level among `ds` (0 when `ds` is empty).
pub open spec fn level_of(ds: Seq<usize>, lvl: Seq<int>) -> int
    decreases ds.len(),
{
    if ds.len() == 0 {
        0
    } else {
        let a = level_of(ds.drop_last(), lvl);
        let b = lvl[ds.last() as int] + 1;
        if a >= b {
            a
        } else {
            b
        }
    }
}

/// `lvl` gives every task the level right after its deepest dependency.
pub open spec fn is_leveling(g: Seq<Seq<usize>>, lvl: Seq<int>) -> bool {
    &&& lvl.len() == g.len()
    &&& forall|i: int| 0 <= i < g.len() ==> #[trigger] lvl[i] == level_of(g[i], lvl)
}

/// A nonempty set of tasks each of which depends on a task of the set.
pub open spec fn closed_set(g: Seq<Seq<usize>>, s: Set<int>) -> bool {
    &&& exists|i: int| s.contains(i)
    &&& forall|i: int| #[trigger]
        s.contains(i) ==> 0 <= i < g.len() && exists|k: int|
            0 <= k < g[i].len() && s.contains(#[trigger] g[i][k] as int)
}

/// The dependencies contain a cycle.
pub open spec fn has_cycle(g: Seq<Seq<usize>>) -> bool {
    exists|s: Set<int>| closed_set(g, s)
}

/// Wave `w` holds exactly the tasks of level `w`, each once, and no wave is empty.
pub open spec fn waves_match_levels(waves: Seq<Seq<usize>>, lvl: Seq<int>) -> bool {
    &&& forall|w: int, j: int|
        0 <= w < waves.len() && 0 <= j < waves[w].len() ==> #[trigger] waves[w][j] < lvl.len()
            && lvl[waves[w][j] as int] == w
    &&& forall|i: int|
        0 <= i < lvl.len() ==> 0 <= #[trigger] lvl[i] < waves.len() && waves[lvl[i]].contains(
            i as usize,
        )
    &&& forall|w: int| 0 <= w < waves.len() ==> #[trigger] waves[w].no_duplicates()
    &&& forall|w: int| 0 <= w < waves.len() ==> #[trigger] waves[w].len() > 0
}

/// Number of occurrences of `x` in `s`.
pub open spec fn count_of(s: Seq<usize>, x: usize) -> nat
    decreases s.len(),
{
    if s.len() == 0 {
        0
    } else {
        count_of(s.drop_last(), x) + (if s.last() == x {
            1nat
        } else {
            0nat
        })
    }
}

/// Number of entries of `ds` whose level is not assigned yet (negative).
pub open spec fn count_unassigned(ds: Seq<usize>, lvl: Seq<int>) -> nat
    decreases ds.len(),
{
    if ds.len() == 0 {
        0
    } else {
        count_unassigned(ds.drop_last(), lvl) + (if lvl[ds.last() as int] < 0 {
            1nat
        } else {
            0nat
        })
    }
}

proof fn lemma_count_push(s: Seq<usize>, y: usize, x: usize)
    ensures
        count_of(s.push(y), x) == count_of(s, x) + (if y == x {
            1nat
        } else {
            0nat
        }),
{
    assert(s.push(y).drop_last() =~= s);
}

proof fn lemma_count_first(s: Seq<usize>, x: usize)
    requires
        s.len() > 0,
    ensures
        count_of(s, x) == (if s[0] == x {
            1nat
        } else {
            0nat
        }) + count_of(s.subrange(1, s.len() as int), x),
    decreases s.len(),
{
    if s.len() > 1 {
        lemma_count_first(s.drop_last(), x);
        assert(s.drop_last().subrange(1, s.len() - 1) =~= s.subrange(1, s.len() as int).drop_last());
        assert(s.drop_last()[0] == s[0]);
        assert(s.subrange(1, s.len() as int).last() == s.last());
        let t = s.subrange(1, s.len() as int);
        assert(count_of(t, x) == count_of(t.drop_last(), x) + (if t.last() == x {
            1nat
        } else {
            0nat
        }));
    } else {
        assert(s.subrange(1, s.len() as int) =~= Seq::<usize>::empty());
        assert(s.drop_last() =~= Seq::<usize>::empty());
        assert(count_of(Seq::<usize>::empty(), x) == 0);
    }
}

proof fn lemma_count_suffix(s: Seq<usize>, m: int, x: usize)
    requires
        0 <= m < s.len(),
    ensures
        count_of(s.subrange(m, s.len() as int), x) == (if s[m] == x {
            1nat
        } else {
            0nat
        }) + count_of(s.subrange(m + 1, s.len() as int), x),
{
    let t = s.subrange(m, s.len() as int);
    lemma_count_first(t, x);
    assert(t.subrange(1, t.len() as int) =~= s.subrange(m + 1, s.len() as int));
}

proof fn lemma_count_pos_contains(s: Seq<usize>, x: usize)
    ensures
        count_of(s, x) > 0 <==> s.contains(x),
    decreases s.len(),
{
    if s.len() > 0 {
        lemma_count_pos_contains(s.drop_last(), x);
        if s.drop_last().contains(x) {
            let k = choose|k: int| 0 <= k < s.drop_last().len() && s.drop_last()[k] == x;
            assert(s[k] == x);
        }
        if s.contains(x) && s.last() != x {
            let k = choose|k: int| 0 <= k < s.len() && s[k] == x;
            assert(s.drop_last()[k] == x);
        }
    }
}

proof fn lemma_unassigned_zero(ds: Seq<usize>, lvl: Seq<int>)
    ensures
        count_unassigned(ds, lvl) == 0 <==> forall|k: int|
            0 <= k < ds.len() ==> lvl[#[trigger] ds[k] as int] >= 0,
    decreases ds.len(),
{
    if ds.len() > 0 {
        lemma_unassigned_zero(ds.drop_last(), lvl);
        if count_unassigned(ds, lvl) == 0 {
            assert forall|k: int| 0 <= k < ds.len() implies lvl[#[trigger] ds[k] as int] >= 0 by {
                if k < ds.len() - 1 {
                    assert(ds.drop_last()[k] == ds[k]);
                }
            }
        }
        if forall|k: int| 0 <= k < ds.len() ==> lvl[#[trigger] ds[k] as int] >= 0 {
            assert forall|k: int|
                0 <= k < ds.drop_last().len() implies lvl[#[trigger] ds.drop_last()[k] as int]
                >= 0 by {
                assert(ds.drop_last()[k] == ds[k]);
            }
            assert(lvl[ds[ds.len() - 1] as int] >= 0);
        }
    }
}

proof fn lemma_unassigned_all(ds: Seq<usize>, lvl: Seq<int>)
    requires
        forall|k: int| 0 <= k < ds.len() ==> lvl[#[trigger] ds[k] as int] < 0,
    ensures
        count_unassigned(ds, lvl) == ds.len(),
    decreases ds.len(),
{
    if ds.len() > 0 {
        assert forall|k: int|
            0 <= k < ds.drop_last().len() implies lvl[#[trigger] ds.drop_last()[k] as int] < 0 by {
            assert(ds.drop_last()[k] == ds[k]);
        }
        lemma_unassigned_all(ds.drop_last(), lvl);
        assert(lvl[ds[ds.len() - 1] as int] < 0);
    }
}

proof fn lemma_unassigned_update(ds: Seq<usize>, lvl: Seq<int>, idx: usize, v: int)
    requires
        0 <= idx < lvl.len(),
        lvl[idx as int] < 0,
        v >= 0,
        forall|k: int| 0 <= k < ds.len() ==> #[trigger] ds[k] < lvl.len(),
    ensures
        count_unassigned(ds, lvl.update(idx as int, v)) + count_of(ds, idx) == count_unassigned(
            ds,
            lvl,
        ),
    decreases ds.len(),
{
    if ds.len() > 0 {
        assert forall|k: int|
            0 <= k < ds.drop_last().len() implies #[trigger] ds.drop_last()[k] < lvl.len() by {
            assert(ds.drop_last()[k] == ds[k]);
        }
        lemma_unassigned_update(ds.drop_last(), lvl, idx, v);
        assert(ds.last() < lvl.len());
        if ds.last() == idx {
            assert(lvl.update(idx as int, v)[ds.last() as int] == v);
        } else {
            assert(lvl.update(idx as int, v)[ds.last() as int] == lvl[ds.last() as int]);
        }
    }
}

proof fn lemma_level_ge(ds: Seq<usize>, lvl: Seq<int>, k: int)
    requires
        0 <= k < ds.len(),
    ensures
        level_of(ds, lvl) >= lvl[ds[k] as int] + 1,
    decreases ds.len(),
{
    if k < ds.len() - 1 {
        lemma_level_ge(ds.drop_last(), lvl, k);
        assert(ds.drop_last()[k] == ds[k]);
    }
}

proof fn lemma_level_nonneg(ds: Seq<usize>, lvl: Seq<int>)
    ensures
        level_of(ds, lvl) >= 0,
    decreases ds.len(),
{
    if ds.len() > 0 {
        lemma_level_nonneg(ds.drop_last(), lvl);
    }
}

proof fn lemma_level_le(ds: Seq<usize>, lvl: Seq<int>, w: int)
    requires
        w >= -1,
        forall|k: int| 0 <= k < ds.len() ==> lvl[#[trigger] ds[k] as int] <= w,
    ensures
        level_of(ds, lvl) <= w + 1,
    decreases ds.len(),
{
    if ds.len() > 0 {
        assert forall|k: int|
            0 <= k < ds.drop_last().len() implies lvl[#[trigger] ds.drop_last()[k] as int] <= w by {
            assert(ds.drop_last()[k] == ds[k]);
        }
        lemma_level_le(ds.drop_last(), lvl, w);
        assert(lvl[ds[ds.len() - 1] as int] <= w);
    }
}

proof fn lemma_level_exact(ds: Seq<usize>, lvl: Seq<int>, w: int, k0: int)
    requires
        w >= 0,
        0 <= k0 < ds.len(),
        lvl[ds[k0] as int] == w,
        forall|k: int| 0 <= k < ds.len() ==> lvl[#[trigger] ds[k] as int] <= w,
    ensures
        level_of(ds, lvl) == w + 1,
{
    lemma_level_ge(ds, lvl, k0);
    lemma_level_le(ds, lvl, w);
}

proof fn lemma_level_frame(ds: Seq<usize>, l1: Seq<int>, l2: Seq<int>)
    requires
        forall|k: int| 0 <= k < ds.len() ==> l1[#[trigger] ds[k] as int] == l2[ds[k] as int],
    ensures
        level_of(ds, l1) == level_of(ds, l2),
    decreases ds.len(),
{
    if ds.len() > 0 {
        assert forall|k: int|
            0 <= k < ds.drop_last().len() implies l1[#[trigger] ds.drop_last()[k] as int]
            == l2[ds.drop_last()[k] as int] by {
            assert(ds.drop_last()[k] == ds[k]);
        }
        lemma_level_frame(ds.drop_last(), l1, l2);
        assert(l1[ds[ds.len() - 1] as int] == l2[ds[ds.len() - 1] as int]);
    }
}

/// No closed set exists when every task has a level: each member of a
/// closed set would need a level above every level of the set.
proof fn lemma_leveled_no_cycle(g: Seq<Seq<usize>>, lvl: Seq<int>)
    requires
        is_leveling(g, lvl),
        deps_in_range(g),
    ensures
        !has_cycle(g),
{
    if has_cycle(g) {
        let s = choose|s: Set<int>| closed_set(g, s);
        lemma_closed_levels_unbounded(g, lvl, s, 0);
        let i = choose|i: int| s.contains(i);
        let bound = lvl[i] + 1;
        assert(bound >= 0) by {
            lemma_level_nonneg(g[i], lvl);
        }
        lemma_closed_levels_unbounded(g, lvl, s, bound as nat);
    }
}

proof fn lemma_closed_levels_unbounded(g: Seq<Seq<usize>>, lvl: Seq<int>, s: Set<int>, b: nat)
    requires
        is_leveling(g, lvl),
        deps_in_range(g),
        closed_set(g, s),
    ensures
        forall|i: int| s.contains(i) ==> lvl[i] >= b,
    decreases b,
{
    if b == 0 {
        assert forall|i: int| s.contains(i) implies lvl[i] >= 0 by {
            lemma_level_nonneg(g[i], lvl);
        }
    } else {
        lemma_closed_levels_unbounded(g, lvl, s, (b - 1) as nat);
        assert forall|i: int| s.contains(i) implies lvl[i] >= b by {
            let k = choose|k: int| 0 <= k < g[i].len() && s.contains(#[trigger] g[i][k] as int);
            lemma_level_ge(g[i], lvl, k);
        }
    }
}

/// Law: a graph has at most one leveling (the wave of every task is determined).
pub proof fn lemma_leveling_unique(g: Seq<Seq<usize>>, l1: Seq<int>, l2: Seq<int>)
    requires
        deps_in_range(g),
        is_leveling(g, l1),
        is_leveling(g, l2),
    ensures
        l1 == l2,
{
    assert forall|i: int| 0 <= i < g.len() implies l1[i] == l2[i] by {
        lemma_level_nonneg(g[i], l1);
        lemma_leveling_agree_below(g, l1, l2, l1[i] as nat);
    }
    assert(l1 =~= l2);
}

proof fn lemma_leveling_agree_below(g: Seq<Seq<usize>>, l1: Seq<int>, l2: Seq<int>, b: nat)
    requires
        deps_in_range(g),
        is_leveling(g, l1),
        is_leveling(g, l2),
    ensures
        forall|i: int| 0 <= i < g.len() && l1[i] <= b ==> l1[i] == l2[i],
    decreases b,
{
    if b > 0 {
        lemma_leveling_agree_below(g, l1, l2, (b - 1) as nat);
    }
    assert forall|i: int| 0 <= i < g.len() && l1[i] <= b implies l1[i] == l2[i] by {
        assert forall|k: int| 0 <= k < g[i].len() implies l1[#[trigger] g[i][k] as int]
            == l2[g[i][k] as int] by {
            lemma_level_ge(g[i], l1, k);
            lemma_level_nonneg(g[g[i][k] as int], l1);
            assert(g[i][k] < g.len());
        }
        lemma_level_frame(g[i], l1, l2);
    }
}

/// For each task, how many dependency entries it has, and for each task the
/// tasks that depend on it (once per dependency entry).
fn build_dependents(deps: &Vec<Vec<usize>>) -> (r: (Vec<usize>, Vec<Vec<usize>>))
    requires
        deps_in_range(dep_graph(deps@)),
    ensures
        r.0@.len() == deps@.len(),
        r.1@.len() == deps@.len(),
        forall|x: int| 0 <= x < deps@.len() ==> #[trigger] r.0@[x] == deps@[x]@.len(),
        dependents_ok(dep_graph(deps@), r.1@),
{
    let n = deps.len();
    let ghost g = dep_graph(deps@);
    let mut in_degree: Vec<usize> = Vec::new();
    let mut dependents: Vec<Vec<usize>> = Vec::new();
    let mut t: usize = 0;
    while t < n
        invariant
            t <= n,
            in_degree@.len() == t,
            dependents@.len() == t,
            forall|x: int| 0 <= x < t ==> #[trigger] in_degree@[x] == 0,
            forall|x: int| 0 <= x < t ==> #[trigger] dependents@[x]@.len() == 0,
        decreases n - t,
    {
        in_degree.push(0);
        dependents.push(Vec::new());
        t += 1;
    }
    let mut i: usize = 0;
    while i < n
        invariant
            n == deps@.len(),
            g == dep_graph(deps@),
            deps_in_range(g),
            i <= n,
            in_degree@.len() == n,
            dependents@.len() == n,
            forall|x: int| 0 <= x < n ==> #[trigger] in_degree@[x] == (if x < i {
                g[x].len()
            } else {
                0
            }),
            forall|d: int, x: int|
                0 <= d < n && 0 <= x < n ==> #[trigger] count_of(dependents@[d]@, x as usize) == (
                if x < i {
                    count_of(g[x], d as usize)
                } else {
                    0
                }),
            forall|d: int, m: int|
                0 <= d < n && 0 <= m < dependents@[d]@.len() ==> #[trigger] dependents@[d]@[m]
                    < i,
        decreases n - i,
    {
        let row_len = deps[i].len();
        assert(g[i as int] == deps@[i as int]@);
        let mut k: usize = 0;
        while k < row_len
            invariant
                n == deps@.len(),
                g == dep_graph(deps@),
                deps_in_range(g),
                i < n,
                k <= row_len,
                row_len == g[i as int].len(),
                g[i as int] == deps@[i as int]@,
                in_degree@.len() == n,
                dependents@.len() == n,
                forall|x: int| 0 <= x < n ==> #[trigger] in_degree@[x] == (if x < i {
                    g[x].len()
                } else if x == i {
                    k as nat
                } else {
                    0
                }),
                forall|d: int, x: int|
                    0 <= d < n && 0 <= x < n ==> #[trigger] count_of(dependents@[d]@, x as usize)
                        == (if x < i {
                        count_of(g[x], d as usize)
                    } else if x == i {
                        count_of(g[x].take(k as int), d as usize)
                    } else {
                        0
                    }),
                forall|d: int, m: int|
                    0 <= d < n && 0 <= m < dependents@[d]@.len() ==> #[trigger] dependents@[d]@[m]
                        <= i,
            decreases row_len - k,
        {
            let d = deps[i][k];
            assert(d < n);
            let ghost before = dependents@;
            dependents[d].push(i);
            in_degree.set(i, in_degree[i] + 1);
            proof {
                assert(g[i as int].take(k + 1) =~= g[i as int].take(k as int).push(d));
                assert forall|dd: int, x: int| 0 <= dd < n && 0 <= x < n implies #[trigger] count_of(
                    dependents@[dd]@,
                    x as usize,
                ) == (if x < i {
                    count_of(g[x], dd as usize)
                } else if x == i {
                    count_of(g[x].take(k + 1), dd as usize)
                } else {
                    0
                }) by {
                    lemma_count_push(g[i as int].take(k as int), d, dd as usize);
                    if dd == d {
                        lemma_count_push(before[dd]@, i, x as usize);
                    }
                }
                assert forall|dd: int, m: int|
                    0 <= dd < n && 0 <= m < dependents@[dd]@.len() implies #[trigger] dependents@[dd]@[m]
                    <= i by {
                    if dd == d && m < before[dd]@.len() {
                        assert(dependents@[dd]@[m] == before[dd]@[m]);
                    }
                }
            }
            k += 1;
        }
        assert(g[i as int].take(row_len as int) =~= g[i as int]);
        i += 1;
    }
    assert forall|d: usize, x: usize| d < g.len() && x < g.len() implies #[trigger] count_of(
        dependents@[d as int]@,
        x,
    ) == count_of(g[x as int], d) by {
        assert(count_of(dependents@[d as int]@, (x as int) as usize) == count_of(
            g[x as int],
            (d as int) as usize,
        ));
    }
    (in_degree, dependents)
}

/// `dependents[d]` lists each task once per dependency entry naming `d`.
spec fn dependents_ok(g: Seq<Seq<usize>>, dependents: Seq<Vec<usize>>) -> bool {
    &&& dependents.len() == g.len()
    &&& forall|d: usize, x: usize|
        d < g.len() && x < g.len() ==> #[trigger] count_of(dependents[d as int]@, x) == count_of(
            g[x as int],
            d,
        )
    &&& forall|d: int, m: int|
        0 <= d < g.len() && 0 <= m < dependents[d]@.len() ==> #[trigger] dependents[d]@[m] < g.len()
}

/// Levels assigned so far (`-1` for none) are consistent, all below `nwaves`,
/// and the pending counts match the unassigned dependencies.
spec fn state_ok(
    g: Seq<Seq<usize>>,
    lvl: Seq<int>,
    levels: Seq<usize>,
    in_degree: Seq<usize>,
    nwaves: int,
) -> bool {
    &&& lvl.len() == g.len()
    &&& levels.len() == g.len()
    &&& in_degree.len() == g.len()
    &&& forall|i: int| 0 <= i < g.len() ==> -1 <= #[trigger] lvl[i] < nwaves
    &&& forall|i: int|
        0 <= i < g.len() && #[trigger] lvl[i] >= 0 ==> levels[i] == lvl[i] && lvl[i] == level_of(
            g[i],
            lvl,
        ) && count_unassigned(g[i], lvl) == 0
    &&& forall|i: int|
        0 <= i < g.len() && #[trigger] lvl[i] == -1 ==> in_degree[i] == count_unassigned(g[i], lvl)
}

/// `queue` holds, once each, exactly the unassigned tasks whose dependencies
/// all have levels, and all of them belong to level `level`.
spec fn frontier_ok(g: Seq<Seq<usize>>, lvl: Seq<int>, queue: Seq<usize>, level: int) -> bool {
    &&& queue.no_duplicates()
    &&& forall|j: int|
        0 <= j < queue.len() ==> #[trigger] queue[j] < g.len() && lvl[queue[j] as int] == -1
            && count_unassigned(g[queue[j] as int], lvl) == 0 && level_of(g[queue[j] as int], lvl)
            == level
    &&& forall|i: int|
        0 <= i < g.len() && lvl[i] == -1 && count_unassigned(g[i], lvl) == 0 ==> #[trigger] queue.contains(
            i as usize,
        )
}

/// The tasks with no dependency entries, in index order.
fn initial_frontier(in_degree: &Vec<usize>) -> (q: Vec<usize>)
    ensures
        q@.no_duplicates(),
        forall|j: int| 0 <= j < q@.len() ==> #[trigger] q@[j] < in_degree@.len() && in_degree@[q@[j] as int] == 0,
        forall|i: int| 0 <= i < in_degree@.len() && in_degree@[i] == 0 ==> #[trigger] q@.contains(i as usize),
{
    let mut q: Vec<usize> = Vec::new();
    let mut i: usize = 0;
    while i < in_degree.len()
        invariant
            i <= in_degree@.len(),
            q@.no_duplicates(),
            forall|j: int| 0 <= j < q@.len() ==> #[trigger] q@[j] < i && in_degree@[q@[j] as int] == 0,
            forall|x: int| 0 <= x < i && in_degree@[x] == 0 ==> #[trigger] q@.contains(x as usize),
        decreases in_degree@.len() - i,
    {
        if in_degree[i] == 0 {
            assert(!q@.contains(i));
            let ghost before = q@;
            q.push(i);
            assert forall|x: int| 0 <= x <= i && in_degree@[x] == 0 implies #[trigger] q@.contains(x as usize) by {
                if x < i {
                    assert(before.contains(x as usize));
                    let jj = choose|jj: int| 0 <= jj < before.len() && before[jj] == x as usize;
                    assert(q@[jj] == x as usize);
                } else {
                    assert(q@[q@.len() - 1] == i);
                }
            }
        }
        i += 1;
    }
    q
}

/// Level every task of `wave` at `wave_idx`, count down the pending
/// dependencies of the tasks that depend on them, and collect (in the order
/// they become ready) the tasks of the next wave.
#[verifier::rlimit(40)]
fn process_wave(
    deps: &Vec<Vec<usize>>,
    dependents: &Vec<Vec<usize>>,
    in_degree: &mut Vec<usize>,
    levels: &mut Vec<usize>,
    wave: &Vec<usize>,
    wave_idx: usize,
    Ghost(lvl0): Ghost<Seq<int>>,
) -> (r: (Vec<usize>, Ghost<Seq<int>>))
    requires
        deps_in_range(dep_graph(deps@)),
        dependents_ok(dep_graph(deps@), dependents@),
        state_ok(dep_graph(deps@), lvl0, old(levels)@, old(in_degree)@, wave_idx as int),
        frontier_ok(dep_graph(deps@), lvl0, wave@, wave_idx as int),
        wave_idx < usize::MAX,
    ensures
        r.1@.len() == deps@.len(),
        forall|i: int|
            0 <= i < deps@.len() ==> #[trigger] r.1@[i] == (if wave@.contains(i as usize) {
                wave_idx as int
            } else {
                lvl0[i]
            }),
        state_ok(dep_graph(deps@), r.1@, final(levels)@, final(in_degree)@, wave_idx + 1),
        frontier_ok(dep_graph(deps@), r.1@, r.0@, wave_idx + 1),
{
    let ghost g = dep_graph(deps@);
    let ghost n = deps@.len() as int;
    let ghost w = wave_idx as int;
    let ghost mut lvl = lvl0;
    assert(deps@.len() == deps.len());
    let mut next: Vec<usize> = Vec::new();
    let mut j: usize = 0;
    while j < wave.len()
        invariant
            g == dep_graph(deps@),
            n == g.len(),
            n <= usize::MAX,
            deps_in_range(g),
            dependents_ok(g, dependents@),
            state_ok(g, lvl0, old(levels)@, old(in_degree)@, w),
            frontier_ok(g, lvl0, wave@, w),
            w == wave_idx,
            wave_idx < usize::MAX,
            j <= wave@.len(),
            lvl.len() == n,
            levels@.len() == n,
            in_degree@.len() == n,
            forall|i: int|
                0 <= i < n ==> #[trigger] lvl[i] == (if wave@.take(j as int).contains(i as usize) {
                    w
                } else {
                    lvl0[i]
                }),
            forall|i: int| 0 <= i < n && #[trigger] lvl[i] >= 0 ==> levels@[i] == lvl[i],
            forall|i: int|
                0 <= i < n && #[trigger] lvl[i] == -1 ==> in_degree@[i] == count_unassigned(g[i], lvl),
            next@.no_duplicates(),
            forall|jj: int|
                0 <= jj < next@.len() ==> #[trigger] next@[jj] < n && lvl[next@[jj] as int] == -1
                    && !wave@.contains(next@[jj]) && count_unassigned(g[next@[jj] as int], lvl) == 0
                    && level_of(g[next@[jj] as int], lvl) == w + 1,
            forall|i: int|
                0 <= i < n && lvl[i] == -1 && !wave@.contains(i as usize) && count_unassigned(g[i], lvl)
                    == 0 ==> #[trigger] next@.contains(i as usize),
        decreases wave@.len() - j,
    {
        let idx = wave[j];
        let ghost lvl_prev = lvl;
        proof {
            assert(wave@.take(j as int + 1) =~= wave@.take(j as int).push(idx));
            assert(!wave@.take(j as int).contains(idx)) by {
                if wave@.take(j as int).contains(idx) {
                    let t = choose|t: int| 0 <= t < j && wave@.take(j as int)[t] == idx;
                    assert(wave@[t] == wave@[j as int]);
                }
            }
            assert(wave@.contains(idx));
            assert(lvl0[idx as int] == -1);
            assert(lvl_prev[idx as int] == -1);
        }
        levels.set(idx, wave_idx);
        proof {
            lvl = lvl.update(idx as int, w);
            assert forall|i: int| 0 <= i < n implies #[trigger] lvl[i] == (if wave@.take(j + 1).contains(
                i as usize,
            ) {
                w
            } else {
                lvl0[i]
            }) by {
                if i != idx as int {
                    assert(wave@.take(j + 1).contains(i as usize) == wave@.take(j as int).contains(
                        i as usize,
                    ));
                } else {
                    assert(wave@.take(j + 1)[j as int] == idx);
                }
            }
        }
        let row_len = dependents[idx].len();
        proof {
            let row = dependents@[idx as int]@;
            assert(row.subrange(0, row_len as int) =~= row);
            assert forall|i: int| 0 <= i < n && #[trigger] lvl[i] == -1 implies in_degree@[i]
                == count_unassigned(g[i], lvl) + count_of(row.subrange(0, row_len as int), i as usize) by {
                assert(lvl_prev[i] == -1);
                lemma_unassigned_update(g[i], lvl_prev, idx, w);
            }
            assert forall|jj: int| 0 <= jj < next@.len() implies #[trigger] next@[jj] < n && lvl[next@[jj] as int] == -1
                && !wave@.contains(next@[jj]) && count_unassigned(g[next@[jj] as int], lvl) == 0
                && level_of(g[next@[jj] as int], lvl) == w + 1 && count_of(
                row.subrange(0, row_len as int),
                next@[jj],
            ) == 0 by {
                let q = next@[jj] as int;
                lemma_unassigned_zero(g[q], lvl_prev);
                lemma_count_pos_contains(g[q], idx);
                if g[q].contains(idx) {
                    let k = choose|k: int| 0 <= k < g[q].len() && g[q][k] == idx;
                    assert(lvl_prev[g[q][k] as int] >= 0);
                }
                lemma_unassigned_update(g[q], lvl_prev, idx, w);
                assert forall|k: int| 0 <= k < g[q].len() implies lvl[#[trigger] g[q][k] as int]
                    == lvl_prev[g[q][k] as int] by {
                    assert(lvl_prev[g[q][k] as int] >= 0);
                }
                lemma_level_frame(g[q], lvl, lvl_prev);
            }
            assert forall|i: int|
                0 <= i < n && lvl[i] == -1 && !wave@.contains(i as usize) && count_unassigned(g[i], lvl)
                    == 0 && count_of(row.subrange(0, row_len as int), i as usize) == 0 implies #[trigger] next@.contains(
                i as usize,
            ) by {
                lemma_unassigned_update(g[i], lvl_prev, idx, w);
            }
        }
        let mut m: usize = 0;
        while m < row_len
            invariant
                g == dep_graph(deps@),
                n == g.len(),
                n <= usize::MAX,
                deps_in_range(g),
                dependents_ok(g, dependents@),
                state_ok(g, lvl0, old(levels)@, old(in_degree)@, w),
                frontier_ok(g, lvl0, wave@, w),
                w == wave_idx,
                j < wave@.len(),
                idx == wave@[j as int],
                idx < n,
                lvl[idx as int] == w,
                row_len == dependents@[idx as int]@.len(),
                m <= row_len,
                lvl.len() == n,
                levels@.len() == n,
                in_degree@.len() == n,
                forall|i: int|
                    0 <= i < n ==> #[trigger] lvl[i] == (if wave@.take(j + 1).contains(i as usize) {
                        w
                    } else {
                        lvl0[i]
                    }),
                forall|i: int| 0 <= i < n && #[trigger] lvl[i] >= 0 ==> levels@[i] == lvl[i],
                forall|i: int|
                    0 <= i < n && #[trigger] lvl[i] == -1 ==> in_degree@[i] == count_unassigned(g[i], lvl)
                        + count_of(dependents@[idx as int]@.subrange(m as int, row_len as int), i as usize),
                next@.no_duplicates(),
                forall|jj: int|
                    0 <= jj < next@.len() ==> #[trigger] next@[jj] < n && lvl[next@[jj] as int] == -1
                        && !wave@.contains(next@[jj]) && count_unassigned(g[next@[jj] as int], lvl) == 0
                        && level_of(g[next@[jj] as int], lvl) == w + 1 && count_of(
                        dependents@[idx as int]@.subrange(m as int, row_len as int),
                        next@[jj],
                    ) == 0,
                forall|i: int|
                    0 <= i < n && lvl[i] == -1 && !wave@.contains(i as usize) && count_unassigned(g[i], lvl)
                        == 0 && count_of(dependents@[idx as int]@.subrange(m as int, row_len as int), i as usize)
                        == 0 ==> #[trigger] next@.contains(i as usize),
            decreases row_len - m,
        {
            let x = dependents[idx][m];
            let ghost row = dependents@[idx as int]@;
            proof {
                assert(row[m as int] == x);
                assert(x < n);
                lemma_count_suffix(row, m as int, x);
                assert(row.contains(x));
                lemma_count_pos_contains(row, x);
                assert(count_of(g[x as int], idx) > 0);
                lemma_count_pos_contains(g[x as int], idx);
                let k0 = choose|k: int| 0 <= k < g[x as int].len() && g[x as int][k] == idx;
                if lvl0[x as int] >= 0 {
                    lemma_unassigned_zero(g[x as int], lvl0);
                    assert(lvl0[g[x as int][k0] as int] >= 0);
                }
                if wave@.contains(x) {
                    let t = choose|t: int| 0 <= t < wave@.len() && wave@[t] == x;
                    assert(count_unassigned(g[wave@[t] as int], lvl0) == 0);
                    lemma_unassigned_zero(g[x as int], lvl0);
                    assert(lvl0[g[x as int][k0] as int] >= 0);
                }
                assert(!wave@.take(j + 1).contains(x)) by {
                    if wave@.take(j + 1).contains(x) {
                        let t = choose|t: int| 0 <= t < j + 1 && #[trigger] wave@.take(j + 1)[t] == x;
                        assert(wave@[t] == x);
                        assert(wave@.contains(x));
                    }
                }
                assert(lvl[x as int] == -1);
            }
            let ghost next_before = next@;
            let ghost deg_before = in_degree@;
            let dx = in_degree[x] - 1;
            in_degree.set(x, dx);
            if dx == 0 {
                proof {
                    if next@.contains(x) {
                        let t = choose|t: int| 0 <= t < next@.len() && next@[t] == x;
                        assert(count_of(row.subrange(m as int, row_len as int), next@[t]) == 0);
                    }
                }
                next.push(x);
                proof {
                    lemma_unassigned_zero(g[x as int], lvl);
                    let k0 = choose|k: int| 0 <= k < g[x as int].len() && g[x as int][k] == idx;
                    assert forall|k: int| 0 <= k < g[x as int].len() implies lvl[#[trigger] g[x as int][k] as int]
                        <= w by {
                        let e = g[x as int][k] as int;
                        assert(lvl[e] >= 0);
                        assert(e < n);
                    }
                    lemma_level_exact(g[x as int], lvl, w, k0);
                }
            }
            proof {
                assert forall|i: int| 0 <= i < n && #[trigger] lvl[i] == -1 implies in_degree@[i]
                    == count_unassigned(g[i], lvl) + count_of(row.subrange(m + 1, row_len as int), i as usize) by {
                    lemma_count_suffix(row, m as int, i as usize);
                }
                assert forall|jj: int| 0 <= jj < next@.len() implies #[trigger] next@[jj] < n && lvl[next@[jj] as int] == -1
                    && !wave@.contains(next@[jj]) && count_unassigned(g[next@[jj] as int], lvl) == 0
                    && level_of(g[next@[jj] as int], lvl) == w + 1 && count_of(
                    row.subrange(m + 1, row_len as int),
                    next@[jj],
                ) == 0 by {
                    lemma_count_suffix(row, m as int, next@[jj]);
                    if jj < next_before.len() {
                        assert(next@[jj] == next_before[jj]);
                    }
                }
                assert forall|i: int|
                    0 <= i < n && lvl[i] == -1 && !wave@.contains(i as usize) && count_unassigned(g[i], lvl)
                        == 0 && count_of(row.subrange(m + 1, row_len as int), i as usize) == 0 implies #[trigger] next@.contains(
                    i as usize,
                ) by {
                    lemma_count_suffix(row, m as int, i as usize);
                    if i != x as int {
                        assert(next_before.contains(i as usize));
                        let t = choose|t: int| 0 <= t < next_before.len() && next_before[t] == i as usize;
                        assert(next@[t] == i as usize);
                    } else {
                        assert(next@[next@.len() - 1] == x);
                    }
                }
            }
            m += 1;
        }
        proof {
            let row = dependents@[idx as int]@;
            assert(row.subrange(row_len as int, row_len as int) =~= Seq::<usize>::empty());
            assert(count_of(Seq::<usize>::empty(), 0usize) == 0);
        }
        j += 1;
    }
    proof {
        assert(wave@.take(wave@.len() as int) =~= wave@);
        assert forall|i: int| 0 <= i < n && #[trigger] lvl[i] >= 0 implies levels@[i] == lvl[i] && lvl[i]
            == level_of(g[i], lvl) && count_unassigned(g[i], lvl) == 0 by {
            if wave@.contains(i as usize) {
                let t = choose|t: int| 0 <= t < wave@.len() && wave@[t] == i as usize;
                assert(count_unassigned(g[wave@[t] as int], lvl0) == 0);
            } else {
                assert(lvl0[i] >= 0);
            }
            lemma_unassigned_zero(g[i], lvl0);
            assert forall|k: int| 0 <= k < g[i].len() implies lvl[#[trigger] g[i][k] as int]
                == lvl0[g[i][k] as int] by {
                let e = g[i][k] as int;
                assert(lvl0[e] >= 0);
                if wave@.contains(e as usize) {
                    let t = choose|t: int| 0 <= t < wave@.len() && wave@[t] == e as usize;
                    assert(lvl0[wave@[t] as int] == -1);
                }
            }
            lemma_level_frame(g[i], lvl, lvl0);
            lemma_unassigned_zero(g[i], lvl);
        }
        assert forall|i: int| 0 <= i < n implies -1 <= #[trigger] lvl[i] < w + 1 by {}
        assert forall|i: int|
            0 <= i < n && lvl[i] == -1 && count_unassigned(g[i], lvl) == 0 implies #[trigger] next@.contains(
            i as usize,
        ) by {
            if wave@.contains(i as usize) {
                assert(lvl[i] == w);
            }
        }
        assert forall|i: int| 0 <= i < n implies #[trigger] lvl[i] == (if wave@.contains(i as usize) {
            w
        } else {
            lvl0[i]
        }) by {}
    }
    (next, Ghost(lvl))
}

/// Group tasks into waves.
///
/// `Some((waves, levels))` when the dependencies have no cycle: `levels[i]`
/// is the wave of task `i` (one past its deepest dependency), and wave `w`
/// holds exactly the tasks of level `w`, each once, in the order in which
/// they became ready. `None` exactly when some tasks depend on each other
/// in a cycle.
pub fn schedule_waves(deps: &Vec<Vec<usize>>) -> (r: Option<(Vec<Vec<usize>>, Vec<usize>)>)
    requires
        deps_in_range(dep_graph(deps@)),
    ensures
        r is None <==> has_cycle(dep_graph(deps@)),
        r matches Some((waves, levels)) ==> {
            &&& forall|i: int| 0 <= i < levels@.len() ==> #[trigger] levels@[i] < levels@.len()
            &&& is_leveling(dep_graph(deps@), levels@.map_values(|x: usize| x as int))
            &&& waves_match_levels(
                waves@.map_values(|v: Vec<usize>| v@),
                levels@.map_values(|x: usize| x as int),
            )
        },
{
    let n = deps.len();
    let ghost g = dep_graph(deps@);
    let (mut in_degree, dependents) = build_dependents(deps);
    let mut levels: Vec<usize> = Vec::new();
    let mut t: usize = 0;
    while t < n
        invariant
            t <= n,
            levels@.len() == t,
        decreases n - t,
    {
        levels.push(0);
        t += 1;
    }
    let mut queue = initial_frontier(&in_degree);
    let ghost mut lvl: Seq<int> = Seq::new(n as nat, |i: int| -1int);
    proof {
        assert forall|i: int| 0 <= i < n implies #[trigger] in_degree@[i] == count_unassigned(g[i], lvl) by {
            lemma_unassigned_all(g[i], lvl);
        }
        assert forall|j: int| 0 <= j < queue@.len() implies #[trigger] queue@[j] < g.len() && lvl[queue@[j] as int]
            == -1 && count_unassigned(g[queue@[j] as int], lvl) == 0 && level_of(
            g[queue@[j] as int],
            lvl,
        ) == 0 by {
            let q = queue@[j] as int;
            lemma_unassigned_all(g[q], lvl);
        }
        assert forall|i: int|
            0 <= i < g.len() && lvl[i] == -1 && count_unassigned(g[i], lvl) == 0 implies #[trigger] queue@.contains(
            i as usize,
        ) by {
            lemma_unassigned_all(g[i], lvl);
        }
    }
    let mut waves: Vec<Vec<usize>> = Vec::new();
    let mut processed: usize = 0;
    let ghost mut assigned: Set<int> = Set::empty();
    while queue.len() > 0
        invariant
            n == deps@.len(),
            g == dep_graph(deps@),
            deps_in_range(g),
            dependents_ok(g, dependents@),
            state_ok(g, lvl, levels@, in_degree@, waves@.len() as int),
            frontier_ok(g, lvl, queue@, waves@.len() as int),
            forall|w: int, j: int|
                0 <= w < waves@.len() && 0 <= j < waves@[w]@.len() ==> #[trigger] waves@[w]@[j] < n
                    && lvl[waves@[w]@[j] as int] == w,
            forall|i: int|
                0 <= i < n && #[trigger] lvl[i] >= 0 ==> waves@[lvl[i]]@.contains(i as usize),
            forall|w: int| 0 <= w < waves@.len() ==> #[trigger] waves@[w]@.no_duplicates(),
            forall|w: int| 0 <= w < waves@.len() ==> #[trigger] waves@[w]@.len() > 0,
            assigned == Set::new(|i: int| 0 <= i < n && lvl[i] >= 0),
            assigned.finite(),
            assigned.len() == processed,
            processed <= n,
            waves@.len() <= processed,
        decreases n - processed,
    {
        let wave = queue;
        let wave_idx = waves.len();
        let ghost lvl0 = lvl;
        let ghost assigned0 = assigned;
        proof {
            let q = wave@[0] as int;
            assert(lvl[q] == -1);
            lemma_int_range(0, n as int);
            let rest = set_int_range(0, n as int).remove(q);
            assert(assigned.subset_of(rest));
            lemma_len_subset(assigned, rest);
        }
        let (next, Ghost(new_lvl)) = process_wave(
            deps,
            &dependents,
            &mut in_degree,
            &mut levels,
            &wave,
            wave_idx,
            Ghost(lvl0),
        );
        proof {
            lvl = new_lvl;
            assigned = Set::new(|i: int| 0 <= i < n && lvl[i] >= 0);
            let wi = wave@.map_values(|x: usize| x as int);
            assert(wi.no_duplicates()) by {
                assert forall|a: int, b: int| 0 <= a < wi.len() && 0 <= b < wi.len() && a != b implies wi[a] != wi[b] by {
                    assert(wave@[a] != wave@[b]);
                }
            }
            let ws = wi.to_set();
            assert(assigned =~= assigned0.union(ws)) by {
                assert forall|i: int| #[trigger] assigned.contains(i) <==> assigned0.union(ws).contains(i) by {
                    if ws.contains(i) {
                        let t = choose|t: int| 0 <= t < wi.len() && wi[t] == i;
                        assert(wave@[t] == i as usize);
                        assert(wave@.contains(i as usize));
                    }
                    if 0 <= i < n && wave@.contains(i as usize) {
                        let t = choose|t: int| 0 <= t < wave@.len() && wave@[t] == i as usize;
                        assert(wi[t] == i);
                        assert(ws.contains(i));
                    }
                }
            }
            assert(assigned0.disjoint(ws)) by {
                assert forall|i: int| ws.contains(i) implies !assigned0.contains(i) by {
                    let t = choose|t: int| 0 <= t < wi.len() && wi[t] == i;
                    assert(lvl0[wave@[t] as int] == -1);
                }
            }
            wi.unique_seq_to_set();
            lemma_set_disjoint_lens(assigned0, ws);
            lemma_int_range(0, n as int);
            lemma_len_subset(assigned, set_int_range(0, n as int));
        }
        processed = processed + wave.len();
        let ghost waves_before = waves@;
        waves.push(wave);
        queue = next;
        proof {
            assert forall|w: int, j: int|
                0 <= w < waves@.len() && 0 <= j < waves@[w]@.len() implies #[trigger] waves@[w]@[j] < n
                && lvl[waves@[w]@[j] as int] == w by {
                if w < wave_idx {
                    assert(waves@[w] == waves_before[w]);
                    let e = waves@[w]@[j] as int;
                    assert(lvl0[e] == w);
                    if waves@[wave_idx as int]@.contains(e as usize) {
                        let t = choose|t: int| 0 <= t < waves@[wave_idx as int]@.len() && waves@[wave_idx as int]@[t] == e as usize;
                        assert(lvl0[waves@[wave_idx as int]@[t] as int] == -1);
                    }
                }
            }
            assert forall|i: int| 0 <= i < n && #[trigger] lvl[i] >= 0 implies waves@[lvl[i]]@.contains(i as usize) by {
                if !waves@[wave_idx as int]@.contains(i as usize) {
                    assert(lvl0[i] >= 0);
                    assert(waves@[lvl0[i]] == waves_before[lvl0[i]]);
                }
            }
            assert forall|w: int| 0 <= w < waves@.len() implies #[trigger] waves@[w]@.no_duplicates() by {
                if w < wave_idx {
                    assert(waves@[w] == waves_before[w]);
                }
            }
            assert forall|w: int| 0 <= w < waves@.len() implies #[trigger] waves@[w]@.len() > 0 by {
                if w < wave_idx {
                    assert(waves@[w] == waves_before[w]);
                }
            }
        }
    }
    proof {
        lemma_int_range(0, n as int);
    }
    if processed != n {
        proof {
            let s = Set::new(|i: int| 0 <= i < n && lvl[i] == -1);
            assert(exists|i: int| s.contains(i)) by {
                if !(exists|i: int| s.contains(i)) {
                    assert(assigned =~= set_int_range(0, n as int)) by {
                        assert forall|i: int| 0 <= i < n implies #[trigger] assigned.contains(i) by {
                            assert(!s.contains(i));
                        }
                    }
                }
            }
            assert forall|i: int| #[trigger] s.contains(i) implies 0 <= i < g.len() && exists|k: int|
                0 <= k < g[i].len() && s.contains(#[trigger] g[i][k] as int) by {
                if count_unassigned(g[i], lvl) == 0 {
                    assert(queue@.contains(i as usize));
                }
                lemma_unassigned_zero(g[i], lvl);
                let k = choose|k: int| 0 <= k < g[i].len() && !(lvl[#[trigger] g[i][k] as int] >= 0);
                assert(g[i][k] < n);
            }
            assert(closed_set(g, s));
        }
        return None;
    }
    proof {
        lemma_subset_equality(assigned, set_int_range(0, n as int));
        let lv = levels@.map_values(|x: usize| x as int);
        assert forall|i: int| 0 <= i < n implies #[trigger] lvl[i] >= 0 by {
            assert(set_int_range(0, n as int).contains(i));
        }
        assert(lv =~= lvl);
        assert(waves@.map_values(|v: Vec<usize>| v@).len() == waves@.len());
        assert forall|i: int| 0 <= i < levels@.len() implies #[trigger] levels@[i] < levels@.len() by {
            assert(lvl[i] < waves@.len());
        }
        lemma_leveled_no_cycle(g, lvl);
    }
    Some((waves, levels))
}

/// Among `ds`, the first entry whose level attains the maximum
/// (`None` when `ds` is empty).
pub open spec fn best_dep(ds: Seq<usize>, lvl: Seq<int>) -> Option<usize>
    decreases ds.len(),
{
    if ds.len() == 0 {
        None
    } else {
        if lvl[ds.last() as int] + 1 > level_of(ds.drop_last(), lvl) {
            Some(ds.last())
        } else {
            best_dep(ds.drop_last(), lvl)
        }
    }
}

/// `i` is the last task of greatest level.
pub open spec fn is_last_deepest(lvl: Seq<int>, i: int) -> bool {
    &&& 0 <= i < lvl.len()
    &&& forall|j: int| 0 <= j < lvl.len() ==> #[trigger] lvl[j] <= lvl[i]
    &&& forall|j: int| i < j < lvl.len() ==> #[trigger] lvl[j] < lvl[i]
}

/// `p` runs from a task without dependencies to its last element, each
/// step going from a task to the dependent that names it as its deepest
/// (first deepest) dependency.
pub open spec fn is_critical_chain(g: Seq<Seq<usize>>, lvl: Seq<int>, p: Seq<usize>) -> bool {
    &&& p.len() > 0
    &&& best_dep(g[p[0] as int], lvl) is None
    &&& forall|k: int|
        0 <= k < p.len() - 1 ==> best_dep(g[#[trigger] p[k + 1] as int], lvl) == Some(p[k])
}

proof fn lemma_best_dep(ds: Seq<usize>, lvl: Seq<int>)
    requires
        forall|k: int| 0 <= k < ds.len() ==> lvl[#[trigger] ds[k] as int] >= 0,
    ensures
        best_dep(ds, lvl) is None <==> ds.len() == 0,
        best_dep(ds, lvl) matches Some(d) ==> ds.contains(d) && lvl[d as int] + 1 == level_of(
            ds,
            lvl,
        ),
    decreases ds.len(),
{
    if ds.len() > 0 {
        assert forall|k: int| 0 <= k < ds.drop_last().len() implies lvl[#[trigger] ds.drop_last()[k] as int]
            >= 0 by {
            assert(ds.drop_last()[k] == ds[k]);
        }
        lemma_best_dep(ds.drop_last(), lvl);
        lemma_level_nonneg(ds.drop_last(), lvl);
        assert(lvl[ds[ds.len() - 1] as int] >= 0);
        if let Some(d) = best_dep(ds.drop_last(), lvl) {
            let k = choose|k: int| 0 <= k < ds.drop_last().len() && ds.drop_last()[k] == d;
            assert(ds[k] == d);
        }
        assert(ds[ds.len() - 1] == ds.last());
    }
}

/// The critical path: the chain of deepest dependencies that ends at the last
/// task of greatest level.
pub fn critical_path(deps: &Vec<Vec<usize>>, levels: &Vec<usize>) -> (p: Vec<usize>)
    requires
        deps_in_range(dep_graph(deps@)),
        deps@.len() > 0,
        is_leveling(dep_graph(deps@), levels@.map_values(|x: usize| x as int)),
        forall|i: int| 0 <= i < levels@.len() ==> #[trigger] levels@[i] < levels@.len(),
    ensures
        forall|k: int| 0 <= k < p@.len() ==> #[trigger] p@[k] < deps@.len(),
        is_last_deepest(levels@.map_values(|x: usize| x as int), p@.last() as int),
        is_critical_chain(dep_graph(deps@), levels@.map_values(|x: usize| x as int), p@),
{
    let n = deps.len();
    let ghost g = dep_graph(deps@);
    let ghost lv = levels@.map_values(|x: usize| x as int);
    let mut prev: Vec<Option<usize>> = Vec::new();
    let mut i: usize = 0;
    while i < n
        invariant
            n == deps@.len(),
            g == dep_graph(deps@),
            lv == levels@.map_values(|x: usize| x as int),
            deps_in_range(g),
            is_leveling(g, lv),
            forall|x: int| 0 <= x < levels@.len() ==> #[trigger] levels@[x] < levels@.len(),
            i <= n,
            prev@.len() == i,
            forall|x: int| 0 <= x < i ==> #[trigger] prev@[x] == best_dep(g[x], lv),
        decreases n - i,
    {
        let row_len = deps[i].len();
        assert(g[i as int] == deps@[i as int]@);
        assert(lv.len() == levels@.len());
        let mut best: usize = 0;
        let mut cur: Option<usize> = None;
        let mut k: usize = 0;
        while k < row_len
            invariant
                n == deps@.len(),
                g == dep_graph(deps@),
                lv == levels@.map_values(|x: usize| x as int),
                deps_in_range(g),
                forall|x: int| 0 <= x < levels@.len() ==> #[trigger] levels@[x] < levels@.len(),
                levels@.len() == n,
                i < n,
                row_len == g[i as int].len(),
                g[i as int] == deps@[i as int]@,
                k <= row_len,
                best as int == level_of(g[i as int].take(k as int), lv),
                cur == best_dep(g[i as int].take(k as int), lv),
            decreases row_len - k,
        {
            let dep = deps[i][k];
            assert(dep < n);
            let d = levels[dep] + 1;
            let ghost t = g[i as int].take(k + 1);
            assert(t.drop_last() =~= g[i as int].take(k as int));
            assert(t.last() == dep);
            if d > best {
                best = d;
                cur = Some(dep);
            }
            k += 1;
        }
        assert(g[i as int].take(row_len as int) =~= g[i as int]);
        prev.push(cur);
        i += 1;
    }
    let mut max_dist: usize = 0;
    let mut max_idx: usize = 0;
    let mut j: usize = 0;
    while j < n
        invariant
            n == deps@.len(),
            lv == levels@.map_values(|x: usize| x as int),
            levels@.len() == n,
            j <= n,
            max_idx < n,
            j > 0 ==> max_idx < j && max_dist == levels@[max_idx as int],
            j == 0 ==> max_idx == 0 && max_dist == 0,
            forall|x: int| 0 <= x < j ==> #[trigger] levels@[x] <= max_dist,
            forall|x: int| max_idx < x < j ==> #[trigger] levels@[x] < max_dist,
        decreases n - j,
    {
        if levels[j] >= max_dist {
            max_dist = levels[j];
            max_idx = j;
        }
        j += 1;
    }
    proof {
        assert forall|x: int| 0 <= x < n implies #[trigger] lv[x] <= lv[max_idx as int] by {
            assert(levels@[x] <= max_dist);
        }
        assert forall|x: int| max_idx < x < n implies #[trigger] lv[x] < lv[max_idx as int] by {
            assert(levels@[x] < max_dist);
        }
    }
    // Follow the deepest dependencies back from `max_idx`.
    let mut back: Vec<usize> = Vec::new();
    let mut cur: usize = max_idx;
    loop
        invariant_except_break
            cur < n,
            back@.len() == 0 ==> cur == max_idx,
            back@.len() > 0 ==> back@[0] == max_idx && best_dep(g[back@.last() as int], lv) == Some(cur),
        invariant
            n == deps@.len(),
            g == dep_graph(deps@),
            lv == levels@.map_values(|x: usize| x as int),
            deps_in_range(g),
            is_leveling(g, lv),
            prev@.len() == n,
            forall|x: int| 0 <= x < n ==> #[trigger] prev@[x] == best_dep(g[x], lv),
            forall|k: int|
                0 <= k < back@.len() - 1 ==> best_dep(g[#[trigger] back@[k] as int], lv) == Some(back@[k + 1]),
            forall|k: int| 0 <= k < back@.len() ==> #[trigger] back@[k] < n,
        ensures
            back@.len() > 0,
            back@[0] == max_idx,
            best_dep(g[back@.last() as int], lv) is None,
        decreases lv[cur as int],
    {
        let ghost before = back@;
        back.push(cur);
        match prev[cur] {
            Some(p) => {
                proof {
                    lemma_unassigned_zero(g[cur as int], lv);
                    assert forall|k: int| 0 <= k < g[cur as int].len() implies lv[#[trigger] g[cur as int][k] as int] >= 0 by {
                        let e = g[cur as int][k] as int;
                        lemma_level_nonneg(g[e], lv);
                    }
                    lemma_best_dep(g[cur as int], lv);
                    let kk = choose|kk: int| 0 <= kk < g[cur as int].len() && g[cur as int][kk] == p;
                    assert(p < n);
                    assert(lv[p as int] + 1 == lv[cur as int]);
                }
                cur = p;
            },
            None => {
                break;
            },
        }
    }
    let len = back.len();
    let mut path: Vec<usize> = Vec::new();
    let mut m: usize = 0;
    while m < len
        invariant
            len == back@.len(),
            m <= len,
            path@.len() == m,
            forall|k: int| 0 <= k < m ==> #[trigger] path@[k] == back@[len - 1 - k],
        decreases len - m,
    {
        path.push(back[len - 1 - m]);
        m += 1;
    }
    proof {
        assert(path@.last() == max_idx);
        assert forall|k: int| 0 <= k < path@.len() implies #[trigger] path@[k] < n by {
            assert(path@[k] == back@[len - 1 - k]);
        }
        assert forall|k: int| 0 <= k < path@.len() - 1 implies best_dep(g[#[trigger] path@[k + 1] as int], lv)
            == Some(path@[k]) by {
            assert(path@[k + 1] == back@[len - 2 - k]);
            assert(path@[k] == back@[len - 1 - k]);
        }
    }
    path
}

} // verus!
