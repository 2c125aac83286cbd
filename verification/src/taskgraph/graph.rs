//! The mathematical model behind the task graph algorithms.
//!
//! A dependency graph over `n` tasks is an adjacency list `adj` with
//! `adj.len() == n`, where `adj[i]` holds the indices `j` of tasks that task
//! `i` depends on.  An edge `(u, v)` in this file always means "`adj[u]`
//! lists `v`", i.e. task `u` depends on task `v`.  Reachability is the
//! existence of a walk along such edges; the transitive reduction keeps a
//! subset of the edges with the same reachability, and the batch leveling
//! assigns every task a batch so that each task's dependencies sit in
//! strictly earlier batches.

use vstd::prelude::*;
use vstd::seq_lib::group_seq_properties;
use vstd::set_lib::lemma_len_subset;

verus! {

/// The sequence-of-sequences view of an adjacency list.
pub open spec fn view_adj(a: Seq<Vec<usize>>) -> Seq<Seq<usize>> {
    Seq::new(a.len(), |i: int| a[i]@)
}

/// Every listed index names a vertex of the graph.
pub open spec fn wf_adj(adj: Seq<Seq<usize>>) -> bool {
    forall|u: int, k: int|
        0 <= u < adj.len() && 0 <= k < adj[u].len() ==> (#[trigger] adj[u][k]) < adj.len()
}

/// No vertex lists the same dependency twice.
pub open spec fn no_dup_adj(adj: Seq<Seq<usize>>) -> bool {
    forall|u: int| 0 <= u < adj.len() ==> (#[trigger] adj[u]).no_duplicates()
}

/// Vertex `u` lists vertex `v`.
pub open spec fn has_edge(adj: Seq<Seq<usize>>, u: usize, v: usize) -> bool {
    u < adj.len() && adj[u as int].contains(v)
}

/// Every edge of `a` is an edge of `b`.
pub open spec fn edges_subset(a: Seq<Seq<usize>>, b: Seq<Seq<usize>>) -> bool {
    forall|u: usize, v: usize|
        #![trigger has_edge(a, u, v)]
        #![trigger has_edge(b, u, v)]
        has_edge(a, u, v) ==> has_edge(b, u, v)
}

/// `p` walks from `u` to `v` along edges of `adj`.  A one-element walk
/// stays in place; vertices may repeat.
pub open spec fn is_walk(adj: Seq<Seq<usize>>, p: Seq<usize>, u: usize, v: usize) -> bool {
    &&& p.len() >= 1
    &&& p[0] == u
    &&& p[p.len() - 1] == v
    &&& forall|i: int| 0 <= i < p.len() - 1 ==> has_edge(adj, #[trigger] p[i], p[i + 1])
}

/// Some walk leads from `u` to `v`.
pub open spec fn reachable(adj: Seq<Seq<usize>>, u: usize, v: usize) -> bool {
    exists|p: Seq<usize>| is_walk(adj, p, u, v)
}

/// The two graphs relate the same pairs of vertices.
pub open spec fn same_reachability(a: Seq<Seq<usize>>, b: Seq<Seq<usize>>) -> bool {
    forall|u: usize, v: usize|
        #![trigger reachable(a, u, v)]
        #![trigger reachable(b, u, v)]
        reachable(a, u, v) == reachable(b, u, v)
}

/// `gm` is `g` with at most the single edge `(a, b)` taken out.
pub open spec fn removes_one_edge(
    g: Seq<Seq<usize>>,
    gm: Seq<Seq<usize>>,
    a: usize,
    b: usize,
) -> bool {
    &&& gm.len() == g.len()
    &&& edges_subset(gm, g)
    &&& forall|u: usize, v: usize|
        #![trigger has_edge(g, u, v)]
        #![trigger has_edge(gm, u, v)]
        has_edge(g, u, v) && !(u == a && v == b) ==> has_edge(gm, u, v)
}

/// `row` with every occurrence of `x` dropped, order kept.
pub open spec fn remove_from_row(row: Seq<usize>, x: usize) -> Seq<usize>
    decreases row.len(),
{
    if row.len() == 0 {
        row
    } else if row.last() == x {
        remove_from_row(row.drop_last(), x)
    } else {
        remove_from_row(row.drop_last(), x).push(row.last())
    }
}

/// The shrunken row holds exactly the other values of the original.
pub proof fn lemma_remove_from_row(row: Seq<usize>, x: usize)
    ensures
        forall|y: usize|
            #[trigger] remove_from_row(row, x).contains(y) <==> (row.contains(y) && y != x),
    decreases row.len(),
{
    if row.len() > 0 {
        lemma_remove_from_row(row.drop_last(), x);
        let r = remove_from_row(row, x);
        let sub = remove_from_row(row.drop_last(), x);
        assert forall|y: usize| #[trigger] r.contains(y) implies row.contains(y) && y != x by {
            let i = choose|i: int| 0 <= i < r.len() && r[i] == y;
            if row.last() != x && i == r.len() - 1 {
                assert(row[row.len() - 1] == y);
            } else {
                assert(sub[i] == y);
                assert(sub.contains(y));
                let j = choose|j: int| 0 <= j < row.drop_last().len() && row.drop_last()[j] == y;
                assert(row[j] == y);
            }
        }
        assert forall|y: usize| row.contains(y) && y != x implies #[trigger] r.contains(y) by {
            let i = choose|i: int| 0 <= i < row.len() && row[i] == y;
            if i == row.len() - 1 {
                assert(r[r.len() - 1] == y);
            } else {
                assert(row.drop_last()[i] == y);
                assert(row.drop_last().contains(y));
                assert(sub.contains(y));
                let j = choose|j: int| 0 <= j < sub.len() && sub[j] == y;
                assert(r[j] == y);
            }
        }
    }
}

/// The graph with the single edge `(u, v)` dropped: every occurrence of `v`
/// leaves row `u`, all other rows stay.
pub open spec fn remove_edge(adj: Seq<Seq<usize>>, u: usize, v: usize) -> Seq<Seq<usize>> {
    adj.update(u as int, remove_from_row(adj[u as int], v))
}

/// The edge `(u, v)` cannot be spared: once it is dropped, `v` is no longer
/// reachable from `u`.
pub open spec fn edge_irredundant(g: Seq<Seq<usize>>, u: usize, v: usize) -> bool {
    !reachable(remove_edge(g, u, v), u, v)
}

/// Minimality of an edge set: no edge can be dropped without losing some of
/// the graph's reachability.  Together with reachability preservation and
/// the edge-subset clause this pins the transitive reduction of a DAG,
/// whose minimal edge set is unique.
pub open spec fn no_redundant_edges(g: Seq<Seq<usize>>) -> bool {
    forall|u: usize, v: usize| #[trigger] has_edge(g, u, v) ==> edge_irredundant(g, u, v)
}

/// Dropping an edge leaves the other edges exactly as they were.
pub proof fn lemma_remove_edge_char(g: Seq<Seq<usize>>, u: usize, v: usize)
    requires
        u < g.len(),
    ensures
        remove_edge(g, u, v).len() == g.len(),
        forall|x: usize, y: usize|
            #[trigger] has_edge(remove_edge(g, u, v), x, y) <==> (has_edge(g, x, y) && !(x == u
                && y == v)),
{
    lemma_remove_from_row(g[u as int], v);
    assert forall|x: usize, y: usize|
        #[trigger] has_edge(remove_edge(g, u, v), x, y) <==> (has_edge(g, x, y) && !(x == u && y
            == v)) by {
        if x < g.len() && x != u {
            assert(remove_edge(g, u, v)[x as int] == g[x as int]);
        }
    }
}

/// Two graphs with the same edges relate the same vertices.
pub proof fn lemma_same_edges_reachable(a: Seq<Seq<usize>>, b: Seq<Seq<usize>>, x: usize, y: usize)
    requires
        edges_subset(a, b),
        edges_subset(b, a),
    ensures
        reachable(a, x, y) == reachable(b, x, y),
{
    if reachable(a, x, y) {
        lemma_reachable_mono(a, b, x, y);
    }
    if reachable(b, x, y) {
        lemma_reachable_mono(b, a, x, y);
    }
}

/// Irredundancy of an edge depends only on the graph's edges.
pub proof fn lemma_irredundant_same_edges(
    g1: Seq<Seq<usize>>,
    g2: Seq<Seq<usize>>,
    u: usize,
    v: usize,
)
    requires
        u < g1.len(),
        u < g2.len(),
        edges_subset(g1, g2),
        edges_subset(g2, g1),
    ensures
        edge_irredundant(g1, u, v) == edge_irredundant(g2, u, v),
{
    lemma_remove_edge_char(g1, u, v);
    lemma_remove_edge_char(g2, u, v);
    assert forall|x: usize, y: usize| #[trigger] has_edge(remove_edge(g1, u, v), x, y)
        implies has_edge(remove_edge(g2, u, v), x, y) by {
        assert(has_edge(g1, x, y) && !(x == u && y == v));
    }
    assert forall|x: usize, y: usize| #[trigger] has_edge(remove_edge(g2, u, v), x, y)
        implies has_edge(remove_edge(g1, u, v), x, y) by {
        assert(has_edge(g2, x, y) && !(x == u && y == v));
    }
    lemma_same_edges_reachable(remove_edge(g1, u, v), remove_edge(g2, u, v), u, v);
}

/// An edge that cannot be spared in a larger graph cannot be spared in a
/// graph with fewer edges either.
pub proof fn lemma_irredundant_mono(
    gs: Seq<Seq<usize>>,
    gb: Seq<Seq<usize>>,
    u: usize,
    v: usize,
)
    requires
        u < gs.len(),
        u < gb.len(),
        edges_subset(gs, gb),
        edge_irredundant(gb, u, v),
    ensures
        edge_irredundant(gs, u, v),
{
    lemma_remove_edge_char(gs, u, v);
    lemma_remove_edge_char(gb, u, v);
    assert forall|x: usize, y: usize| #[trigger] has_edge(remove_edge(gs, u, v), x, y)
        implies has_edge(remove_edge(gb, u, v), x, y) by {
        assert(has_edge(gs, x, y) && !(x == u && y == v));
    }
    if reachable(remove_edge(gs, u, v), u, v) {
        lemma_reachable_mono(remove_edge(gs, u, v), remove_edge(gb, u, v), u, v);
    }
}

/// Every vertex reaches itself.
pub proof fn lemma_reachable_refl(adj: Seq<Seq<usize>>, u: usize)
    ensures
        reachable(adj, u, u),
{
    let p = seq![u];
    assert(is_walk(adj, p, u, u));
}

/// An edge is a walk of length two.
pub proof fn lemma_edge_reachable(adj: Seq<Seq<usize>>, u: usize, v: usize)
    requires
        has_edge(adj, u, v),
    ensures
        reachable(adj, u, v),
{
    let p = seq![u, v];
    assert(p[0] == u && p[p.len() - 1] == v);
    assert(is_walk(adj, p, u, v));
}

/// Chopping the first vertex off a walk leaves a walk.
pub proof fn lemma_walk_tail(adj: Seq<Seq<usize>>, p: Seq<usize>, u: usize, v: usize)
    requires
        is_walk(adj, p, u, v),
        p.len() >= 2,
    ensures
        is_walk(adj, p.subrange(1, p.len() as int), p[1], v),
{
    let rest = p.subrange(1, p.len() as int);
    assert(rest[0] == p[1]);
    assert(rest[rest.len() - 1] == p[p.len() - 1]);
    assert forall|i: int| 0 <= i < rest.len() - 1 implies has_edge(
        adj,
        #[trigger] rest[i],
        rest[i + 1],
    ) by {
        assert(rest[i] == p[i + 1]);
        assert(rest[i + 1] == p[i + 2]);
        assert(has_edge(adj, p[i + 1], p[i + 2]));
    }
}

/// Reachability is transitive: two walks concatenate.
pub proof fn lemma_reachable_trans(adj: Seq<Seq<usize>>, u: usize, v: usize, w: usize)
    requires
        reachable(adj, u, v),
        reachable(adj, v, w),
    ensures
        reachable(adj, u, w),
{
    let p1 = choose|p: Seq<usize>| is_walk(adj, p, u, v);
    let p2 = choose|p: Seq<usize>| is_walk(adj, p, v, w);
    let p = p1 + p2.subrange(1, p2.len() as int);
    assert(p.len() == p1.len() + p2.len() - 1);
    assert(p[0] == p1[0]);
    if p2.len() == 1 {
        assert(p[p.len() - 1] == p1[p1.len() - 1]);
        assert(v == w);
    } else {
        assert(p[p.len() - 1] == p2[p2.len() - 1]);
    }
    assert forall|i: int| 0 <= i < p.len() - 1 implies has_edge(adj, #[trigger] p[i], p[i + 1]) by {
        if i < p1.len() - 1 {
            assert(p[i] == p1[i]);
            assert(p[i + 1] == p1[i + 1]);
            assert(has_edge(adj, p1[i], p1[i + 1]));
        } else if i == p1.len() - 1 {
            assert(p[i] == p1[i]);
            assert(p1[i] == v);
            assert(p[i + 1] == p2[i + 1 - p1.len() + 1]);
            assert(p[i + 1] == p2[1]);
            assert(p2[0] == v);
            assert(has_edge(adj, p2[0], p2[1]));
        } else {
            assert(p[i] == p2[i - p1.len() + 1]);
            assert(p[i + 1] == p2[i + 1 - p1.len() + 1]);
            assert(has_edge(adj, p2[i - p1.len() + 1], p2[i - p1.len() + 2]));
        }
    }
    assert(is_walk(adj, p, u, w));
}

/// A walk of a subgraph is a walk of the supergraph.
pub proof fn lemma_reachable_mono(a: Seq<Seq<usize>>, b: Seq<Seq<usize>>, u: usize, v: usize)
    requires
        edges_subset(a, b),
        reachable(a, u, v),
    ensures
        reachable(b, u, v),
{
    let p = choose|p: Seq<usize>| is_walk(a, p, u, v);
    assert forall|i: int| 0 <= i < p.len() - 1 implies has_edge(b, #[trigger] p[i], p[i + 1]) by {
        assert(has_edge(a, p[i], p[i + 1]));
    }
    assert(is_walk(b, p, u, v));
}

/// If the removed edge's endpoints stay connected in the smaller graph,
/// every walk of the larger graph can be rerouted around the removed edge.
pub proof fn lemma_reroute_walk(
    g: Seq<Seq<usize>>,
    gm: Seq<Seq<usize>>,
    a: usize,
    b: usize,
    p: Seq<usize>,
    x: usize,
    y: usize,
)
    requires
        removes_one_edge(g, gm, a, b),
        reachable(gm, a, b),
        is_walk(g, p, x, y),
    ensures
        reachable(gm, x, y),
    decreases p.len(),
{
    if p.len() == 1 {
        assert(x == y);
        lemma_reachable_refl(gm, x);
    } else {
        lemma_walk_tail(g, p, x, y);
        lemma_reroute_walk(g, gm, a, b, p.subrange(1, p.len() as int), p[1], y);
        assert(has_edge(g, x, p[1]));
        if x == a && p[1] == b {
            lemma_reachable_trans(gm, a, b, y);
        } else {
            assert(has_edge(gm, x, p[1]));
            lemma_edge_reachable(gm, x, p[1]);
            lemma_reachable_trans(gm, x, p[1], y);
        }
    }
}

/// Removing one edge whose endpoints remain connected leaves reachability
/// unchanged: the core argument of the transitive reduction.
pub proof fn lemma_remove_redundant_edge(g: Seq<Seq<usize>>, gm: Seq<Seq<usize>>, a: usize, b: usize)
    requires
        removes_one_edge(g, gm, a, b),
        reachable(gm, a, b),
    ensures
        same_reachability(g, gm),
{
    assert forall|u: usize, v: usize| #![trigger reachable(g, u, v)] #![trigger reachable(gm, u, v)]
        reachable(g, u, v) == reachable(gm, u, v) by {
        if reachable(g, u, v) {
            let p = choose|p: Seq<usize>| is_walk(g, p, u, v);
            lemma_reroute_walk(g, gm, a, b, p, u, v);
        }
        if reachable(gm, u, v) {
            lemma_reachable_mono(gm, g, u, v);
        }
    }
}

/// No walk escapes a set that contains its start and is closed under the
/// graph's edges: the completeness argument of the reachability search.
pub proof fn lemma_closed_set_blocks(
    adj: Seq<Seq<usize>>,
    s: Set<usize>,
    p: Seq<usize>,
    x: usize,
    y: usize,
)
    requires
        is_walk(adj, p, x, y),
        s.contains(x),
        forall|u: usize, v: usize| s.contains(u) && #[trigger] has_edge(adj, u, v) ==> s.contains(v),
    ensures
        s.contains(y),
    decreases p.len(),
{
    if p.len() > 1 {
        assert(has_edge(adj, x, p[1]));
        lemma_walk_tail(adj, p, x, y);
        lemma_closed_set_blocks(adj, s, p.subrange(1, p.len() as int), p[1], y);
    }
}

/// If a rank strictly drops along every edge, it drops along every walk:
/// once every dependency sits in a strictly earlier batch, so does every
/// transitive dependency.
pub proof fn lemma_rank_decreases(
    adj: Seq<Seq<usize>>,
    rank: spec_fn(usize) -> int,
    p: Seq<usize>,
    x: usize,
    y: usize,
)
    requires
        is_walk(adj, p, x, y),
        forall|u: usize, v: usize| #[trigger] has_edge(adj, u, v) ==> rank(v) < rank(u),
    ensures
        rank(y) <= rank(x),
        x != y ==> rank(y) < rank(x),
    decreases p.len(),
{
    if p.len() > 1 {
        assert(has_edge(adj, x, p[1]));
        lemma_walk_tail(adj, p, x, y);
        lemma_rank_decreases(adj, rank, p.subrange(1, p.len() as int), p[1], y);
    }
}

/// Number of `true` entries of a boolean sequence.
pub open spec fn count_trues(s: Seq<bool>) -> int
    decreases s.len(),
{
    if s.len() == 0 {
        0
    } else {
        count_trues(s.drop_last()) + if s.last() {
            1int
        } else {
            0int
        }
    }
}

/// The count stays between 0 and the sequence length.
pub proof fn lemma_count_trues_bound(s: Seq<bool>)
    ensures
        0 <= count_trues(s) <= s.len(),
    decreases s.len(),
{
    if s.len() > 0 {
        lemma_count_trues_bound(s.drop_last());
    }
}

/// Setting a `false` entry to `true` raises the count by one.
pub proof fn lemma_count_trues_update(s: Seq<bool>, i: int)
    requires
        0 <= i < s.len(),
        !s[i],
    ensures
        count_trues(s.update(i, true)) == count_trues(s) + 1,
    decreases s.len(),
{
    if i == s.len() - 1 {
        assert(s.update(i, true).drop_last() =~= s.drop_last());
    } else {
        lemma_count_trues_update(s.drop_last(), i);
        assert(s.update(i, true).drop_last() =~= s.drop_last().update(i, true));
        assert(s.update(i, true).last() == s.last());
    }
}

/// Number of vertices `u < m` that list `v` and are not in `excluded`: the
/// pending in-degree of `v` during the batch leveling.
pub open spec fn pred_count(
    adj: Seq<Seq<usize>>,
    v: usize,
    excluded: Set<usize>,
    m: int,
) -> int
    decreases m,
{
    if m <= 0 {
        0
    } else {
        pred_count(adj, v, excluded, m - 1) + if has_edge(adj, (m - 1) as usize, v)
            && !excluded.contains((m - 1) as usize) {
            1int
        } else {
            0int
        }
    }
}

/// The pending in-degree stays between 0 and `m`.
pub proof fn lemma_pred_count_bound(adj: Seq<Seq<usize>>, v: usize, excluded: Set<usize>, m: int)
    requires
        m >= 0,
    ensures
        0 <= pred_count(adj, v, excluded, m) <= m,
    decreases m,
{
    if m > 0 {
        lemma_pred_count_bound(adj, v, excluded, m - 1);
    }
}

/// Excluding one more vertex lowers the count by one exactly when that
/// vertex is a pending predecessor.
pub proof fn lemma_pred_count_insert(
    adj: Seq<Seq<usize>>,
    v: usize,
    excluded: Set<usize>,
    m: int,
    u: usize,
)
    requires
        m <= usize::MAX,
        !excluded.contains(u),
    ensures
        pred_count(adj, v, excluded.insert(u), m) == pred_count(adj, v, excluded, m) - if u < m
            && has_edge(adj, u, v) {
            1int
        } else {
            0int
        },
    decreases m,
{
    if m > 0 {
        lemma_pred_count_insert(adj, v, excluded, m - 1, u);
    }
}

/// A pending predecessor keeps the count positive.
pub proof fn lemma_pred_count_pos(
    adj: Seq<Seq<usize>>,
    v: usize,
    excluded: Set<usize>,
    m: int,
    u: usize,
)
    requires
        u < m,
        m <= usize::MAX,
        has_edge(adj, u, v),
        !excluded.contains(u),
    ensures
        pred_count(adj, v, excluded, m) >= 1,
    decreases m,
{
    lemma_pred_count_bound(adj, v, excluded, m - 1);
    if u < m - 1 {
        lemma_pred_count_pos(adj, v, excluded, m - 1, u);
    }
}

/// A zero count means every predecessor below `m` is excluded.
pub proof fn lemma_pred_count_zero(adj: Seq<Seq<usize>>, v: usize, excluded: Set<usize>, m: int)
    requires
        m <= usize::MAX,
        pred_count(adj, v, excluded, m) == 0,
    ensures
        forall|u: usize| u < m && #[trigger] has_edge(adj, u, v) ==> excluded.contains(u),
{
    assert forall|u: usize| u < m && #[trigger] has_edge(adj, u, v) implies excluded.contains(
        u,
    ) by {
        if !excluded.contains(u) {
            lemma_pred_count_pos(adj, v, excluded, m, u);
        }
    }
}

/// If every predecessor below `m` is excluded, the count is zero.
pub proof fn lemma_pred_count_all_excluded(
    adj: Seq<Seq<usize>>,
    v: usize,
    excluded: Set<usize>,
    m: int,
)
    requires
        m <= usize::MAX,
        forall|u: usize| u < m && #[trigger] has_edge(adj, u, v) ==> excluded.contains(u),
    ensures
        pred_count(adj, v, excluded, m) == 0,
    decreases m,
{
    if m > 0 {
        lemma_pred_count_all_excluded(adj, v, excluded, m - 1);
    }
}

/// In a graph whose edges strictly decrease, a vertex all of whose pending
/// predecessors are settled is settled itself; so once no vertex has a
/// pending predecessor left outside the settled set, every vertex is in it.
pub proof fn lemma_all_settled(g: Seq<Seq<usize>>, done: Set<usize>, n: usize, v: usize)
    requires
        n == g.len(),
        v < n,
        forall|a: usize, b: usize| #[trigger] has_edge(g, a, b) ==> b < a,
        forall|w: usize| w < n && pred_count(g, w, done, n as int) == 0 ==> done.contains(w),
    ensures
        done.contains(v),
    decreases n - v,
{
    assert forall|u: usize| u < n && #[trigger] has_edge(g, u, v) implies done.contains(u) by {
        assert(v < u);
        lemma_all_settled(g, done, n, u);
    }
    lemma_pred_count_all_excluded(g, v, done, n as int);
}

/// The set of vertex indices below `n`.
pub open spec fn vertex_range(n: usize) -> Set<usize> {
    Set::new(|x: usize| x < n)
}

/// That set is finite and holds `n` vertices.
pub proof fn lemma_vertex_range(n: usize)
    ensures
        vertex_range(n).finite(),
        vertex_range(n).len() == n,
    decreases n,
{
    if n == 0 {
        assert(vertex_range(0usize) =~= Set::empty());
    } else {
        lemma_vertex_range((n - 1) as usize);
        assert(vertex_range(n) =~= vertex_range((n - 1) as usize).insert((n - 1) as usize));
    }
}

/// Disjoint finite sets add their cardinalities under union.
pub proof fn lemma_len_disjoint_union<A>(a: Set<A>, b: Set<A>)
    requires
        a.finite(),
        b.finite(),
        a.disjoint(b),
    ensures
        a.union(b).finite(),
        a.union(b).len() == a.len() + b.len(),
    decreases b.len(),
{
    if b.len() == 0 {
        assert(b =~= Set::empty());
        assert(a.union(b) =~= a);
    } else {
        let e = b.choose();
        assert(b.contains(e));
        lemma_len_disjoint_union(a, b.remove(e));
        assert(a.union(b) =~= a.union(b.remove(e)).insert(e));
        assert(!a.union(b.remove(e)).contains(e));
    }
}

/// A set of distinct vertices below `n` holds at most `n` of them.
pub proof fn lemma_vertex_set_bound(s: Set<usize>, n: usize)
    requires
        s.finite(),
        forall|x: usize| s.contains(x) ==> x < n,
    ensures
        s.len() <= n,
{
    lemma_vertex_range(n);
    lemma_len_subset(s, vertex_range(n));
}

} // verus!
