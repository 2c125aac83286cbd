//! The task graph builder: hazard detection, transitive reduction and
//! batch leveling.

use vstd::prelude::*;

use crate::gpu_resources::{BufferID, ImageID, ImageViewID};
use crate::taskgraph::definations::{
    Task, TaskAccess, TaskBufferId, TaskImageId, TaskImageViewId, TaskResource,
};
use crate::taskgraph::graph::{
    count_trues, edge_irredundant, edges_subset, has_edge, is_walk, lemma_all_settled,
    lemma_closed_set_blocks, lemma_count_trues_bound, lemma_count_trues_update,
    lemma_edge_reachable, lemma_irredundant_mono, lemma_irredundant_same_edges,
    lemma_len_disjoint_union, lemma_pred_count_bound, lemma_pred_count_insert, lemma_pred_count_pos,
    lemma_pred_count_zero, lemma_rank_decreases, lemma_reachable_mono, lemma_reachable_refl,
    lemma_reachable_trans, lemma_remove_edge_char, lemma_remove_from_row,
    lemma_remove_redundant_edge, lemma_same_edges_reachable, lemma_vertex_set_bound,
    no_dup_adj, no_redundant_edges, pred_count, reachable, remove_edge, remove_from_row,
    removes_one_edge, same_reachability, view_adj, wf_adj,
};

verus! {

broadcast use vstd::seq_lib::group_seq_properties;

/// Some resource access of task `a` collides with some access of task `b`:
/// the two name the same resource and at least one of them writes.
pub open spec fn tasks_conflict(a: Seq<TaskResource>, b: Seq<TaskResource>) -> bool {
    exists|x: int, y: int|
        0 <= x < a.len() && 0 <= y < b.len() && #[trigger] TaskResource::conflicts_spec(a[x], b[y])
}

/// Task `i` must wait for the earlier task `j`: the two conflict on some
/// resource.  Only pairs with `j < i` are ever considered, so the hazard
/// graph is acyclic by construction.
pub open spec fn hazard_edge(tasks: Seq<Seq<TaskResource>>, i: int, j: int) -> bool {
    0 <= j < i < tasks.len() && tasks_conflict(tasks[j], tasks[i])
}

/// `x` sits somewhere in batch `i`.
pub open spec fn in_batch(b: Seq<Seq<usize>>, i: int, x: usize) -> bool {
    0 <= i < b.len() && b[i].contains(x)
}

/// The batch holding `x`; meaningful once `x` sits in exactly one batch.
pub open spec fn batch_of(b: Seq<Seq<usize>>, x: usize) -> int {
    choose|i: int| in_batch(b, i, x)
}

/// `x` occurs in one of the first `bound` batches.
pub open spec fn in_prefix(b: Seq<Seq<usize>>, x: usize, bound: int) -> bool {
    exists|i: int| 0 <= i < bound && i < b.len() && #[trigger] b[i].contains(x)
}

/// Some vertex in `batch` lists `y` as a dependency.
pub open spec fn has_dependent_in(g: Seq<Seq<usize>>, y: usize, batch: Seq<usize>) -> bool {
    exists|a: usize| has_edge(g, a, y) && #[trigger] batch.contains(a)
}

/// Some task in `batch` conflicts with the earlier task `y`.
pub open spec fn has_conflicting_dependent_in(
    tasks: Seq<Seq<TaskResource>>,
    y: usize,
    batch: Seq<usize>,
) -> bool {
    exists|a: usize| hazard_edge(tasks, a as int, y as int) && #[trigger] batch.contains(a)
}

/// The batches partition the vertices `0..adj.len()` — every vertex sits at
/// exactly one position of exactly one non-empty batch — and respect the
/// edges: every dependency sits in a strictly earlier batch than the task
/// that lists it.
///
/// The last conjunct pins the leveling itself, ruling out needlessly
/// serial plans: every vertex outside the final batch has a dependent in
/// the batch right after its own.  A vertex's batch is therefore forced by
/// the longest chain of dependents above it; in particular, vertices with
/// no dependents all sit in the final batch, and a graph with no edges at
/// all levels into a single batch.
pub open spec fn valid_batches(adj: Seq<Seq<usize>>, b: Seq<Seq<usize>>) -> bool {
    &&& forall|i: int, k: int|
        0 <= i < b.len() && 0 <= k < b[i].len() ==> (#[trigger] b[i][k]) < adj.len()
    &&& forall|x: usize| x < adj.len() ==> in_batch(b, #[trigger] batch_of(b, x), x)
    &&& forall|i1: int, k1: int, i2: int, k2: int|
        0 <= i1 < b.len() && 0 <= k1 < b[i1].len() && 0 <= i2 < b.len() && 0 <= k2 < b[i2].len()
            && (#[trigger] b[i1][k1]) == (#[trigger] b[i2][k2]) ==> i1 == i2 && k1 == k2
    &&& forall|i: int| 0 <= i < b.len() ==> (#[trigger] b[i]).len() > 0
    &&& forall|u: usize, v: usize|
        #[trigger] has_edge(adj, u, v) ==> batch_of(b, v) < batch_of(b, u)
    &&& forall|i: int, k: int|
        0 <= i < b.len() - 1 && 0 <= k < b[i].len() ==> has_dependent_in(
            adj,
            #[trigger] b[i][k],
            b[i + 1],
        )
}

/// A compiled execution plan for the given task list: every task index
/// sits at exactly one position of exactly one non-empty batch, and for
/// every hazard between an earlier task `j` and a later task `i` — not
/// only the hazards that survive the transitive reduction — task `j`'s
/// batch comes strictly before task `i`'s.
///
/// The last conjunct rules out needlessly serial plans: a task outside the
/// final batch conflicts with some later task placed in the batch right
/// after its own.  Tasks that no later task conflicts with therefore share
/// the final batch; with no conflicts at all, the plan is a single batch.
pub open spec fn valid_plan(tasks: Seq<Seq<TaskResource>>, b: Seq<Seq<usize>>) -> bool {
    &&& forall|i: int, k: int|
        0 <= i < b.len() && 0 <= k < b[i].len() ==> (#[trigger] b[i][k]) < tasks.len()
    &&& forall|x: usize| x < tasks.len() ==> in_batch(b, #[trigger] batch_of(b, x), x)
    &&& forall|i1: int, k1: int, i2: int, k2: int|
        0 <= i1 < b.len() && 0 <= k1 < b[i1].len() && 0 <= i2 < b.len() && 0 <= k2 < b[i2].len()
            && (#[trigger] b[i1][k1]) == (#[trigger] b[i2][k2]) ==> i1 == i2 && k1 == k2
    &&& forall|i: int| 0 <= i < b.len() ==> (#[trigger] b[i]).len() > 0
    &&& forall|i: usize, j: usize|
        #[trigger] hazard_edge(tasks, i as int, j as int) ==> batch_of(b, j) < batch_of(b, i)
    &&& forall|i: int, k: int|
        0 <= i < b.len() - 1 && 0 <= k < b[i].len() ==> has_conflicting_dependent_in(
            tasks,
            #[trigger] b[i][k],
            b[i + 1],
        )
}

/// Two tasks whose declared accesses all read never conflict: no edge is
/// ever recorded between them, whatever resources they share.
pub proof fn lemma_read_read_independent(a: Seq<TaskResource>, b: Seq<TaskResource>)
    requires
        forall|x: int| 0 <= x < a.len() ==> (#[trigger] a[x]).access_spec() is Read,
        forall|y: int| 0 <= y < b.len() ==> (#[trigger] b[y]).access_spec() is Read,
    ensures
        !tasks_conflict(a, b),
{
    assert forall|x: int, y: int|
        0 <= x < a.len() && 0 <= y < b.len() implies !TaskResource::conflicts_spec(
        a[x],
        b[y],
    ) by {}
}

/// The vertices settled once the first `t` frontier entries have been
/// processed on top of `done`.
spec fn settled(done: Set<usize>, f: Seq<usize>, t: int) -> Set<usize> {
    Set::new(|x: usize| done.contains(x) || f.take(t).contains(x))
}

/// Builds a vector holding `n` copies of `val`.
fn filled<T: Copy>(val: T, n: usize) -> (r: Vec<T>)
    ensures
        r@.len() == n,
        forall|i: int| 0 <= i < n ==> r@[i] == val,
{
    let mut r: Vec<T> = Vec::new();
    let mut i: usize = 0;
    while i < n
        invariant
            i <= n,
            r@.len() == i,
            forall|j: int| 0 <= j < i ==> r@[j] == val,
        decreases n - i,
    {
        r.push(val);
        i += 1;
    }
    r
}

/// Copies one adjacency row, so it can be walked while the row is edited.
fn copy_row(v: &Vec<usize>) -> (r: Vec<usize>)
    ensures
        r@ == v@,
{
    let mut r: Vec<usize> = Vec::new();
    let mut i: usize = 0;
    while i < v.len()
        invariant
            i <= v@.len(),
            r@ == v@.take(i as int),
        decreases v@.len() - i,
    {
        r.push(v[i]);
        proof {
            assert(v@.take(i + 1) =~= v@.take(i as int).push(v@[i as int]));
        }
        i += 1;
    }
    proof {
        assert(v@.take(v@.len() as int) =~= v@);
    }
    r
}

/// Removes every occurrence of `x` from row `u` of the adjacency list,
/// leaving all other rows untouched: the executable form of
/// [`remove_edge`].
fn remove_value(adj: &mut Vec<Vec<usize>>, u: usize, x: usize)
    requires
        u < old(adj)@.len(),
    ensures
        final(adj)@.len() == old(adj)@.len(),
        view_adj(final(adj)@) == remove_edge(view_adj(old(adj)@), u, x),
        forall|r: int| 0 <= r < old(adj)@.len() && r != u ==> final(adj)@[r] == old(adj)@[r],
        forall|y: usize|
            #[trigger] final(adj)@[u as int]@.contains(y) <==> (old(adj)@[u as int]@.contains(y)
                && y != x),
        old(adj)@[u as int]@.no_duplicates() ==> final(adj)@[u as int]@.no_duplicates(),
        forall|y: usize|
            old(adj)@[u as int]@.contains(y) && y != x ==> final(adj)@[u as int]@.contains(y),
{
    let row = &adj[u];
    let mut out: Vec<usize> = Vec::new();
    let mut k: usize = 0;
    while k < row.len()
        invariant
            k <= row@.len(),
            row == old(adj)@[u as int],
            row@.no_duplicates() ==> out@.no_duplicates(),
            out@ == remove_from_row(row@.take(k as int), x),
            forall|y: usize|
                #[trigger] out@.contains(y) <==> (row@.take(k as int).contains(y) && y != x),
        decreases row@.len() - k,
    {
        let e = row[k];
        proof {
            assert(row@.take(k + 1) =~= row@.take(k as int).push(e));
            assert(row@.take(k + 1).drop_last() =~= row@.take(k as int));
            assert(row@.take(k + 1).last() == e);
        }
        if e != x {
            proof {
                if row@.no_duplicates() {
                    assert(!row@.take(k as int).contains(e)) by {
                        if row@.take(k as int).contains(e) {
                            let j = choose|j: int|
                                0 <= j < k && row@.take(k as int)[j] == e;
                            assert(row@[j] == row@[k as int]);
                        }
                    }
                }
            }
            let ghost out0 = out@;
            out.push(e);
            proof {
                if row@.no_duplicates() {
                    assert forall|j1: int, j2: int| 0 <= j1 < j2 < out@.len() implies out@[j1]
                        != out@[j2] by {
                        if j2 == out@.len() - 1 {
                            assert(out@[j1] == out0[j1]);
                            assert(out0.contains(out0[j1]));
                        }
                    }
                    assert(out@.no_duplicates());
                }
            }
        }
        k += 1;
    }
    proof {
        assert(row@.take(row@.len() as int) =~= row@);
    }
    let ghost g0 = view_adj(adj@);
    adj[u] = out;
    proof {
        assert(view_adj(adj@) =~= remove_edge(g0, u, x));
    }
}

/// Depth-first search: decides whether `v` can be reached from `u` along
/// the edges of `adj`.
fn is_reachable(adj: &Vec<Vec<usize>>, u: usize, v: usize) -> (b: bool)
    requires
        wf_adj(view_adj(adj@)),
        u < adj@.len(),
        v < adj@.len(),
    ensures
        b == reachable(view_adj(adj@), u, v),
{
    let ghost g = view_adj(adj@);
    let n = adj.len();
    let mut visited: Vec<bool> = filled(false, n);
    let mut stack: Vec<usize> = Vec::new();
    stack.push(u);
    proof {
        lemma_reachable_refl(g, u);
        lemma_count_trues_bound(visited@);
        assert(stack@[0] == u);
        assert(stack@.contains(u));
    }
    while stack.len() > 0
        invariant
            n == g.len(),
            g == view_adj(adj@),
            wf_adj(g),
            u < n,
            v < n,
            visited@.len() == n,
            0 <= count_trues(visited@) <= n,
            !visited@[v as int],
            forall|k: int| 0 <= k < stack@.len() ==> (#[trigger] stack@[k]) < n,
            forall|k: int| 0 <= k < stack@.len() ==> reachable(g, u, #[trigger] stack@[k]),
            forall|x: usize| x < n && visited@[x as int] ==> reachable(g, u, x),
            forall|x: usize, w: usize|
                x < n && visited@[x as int] && #[trigger] has_edge(g, x, w) ==> visited@[w as int]
                    || stack@.contains(w),
            visited@[u as int] || stack@.contains(u),
        decreases n - count_trues(visited@), stack@.len(),
    {
        let ghost stack_pre = stack@;
        let node = match stack.pop() {
            Some(nd) => nd,
            None => {
                proof {
                    assert(false);
                }
                return false;
            },
        };
        proof {
            assert forall|w: usize| stack_pre.contains(w) implies w == node || stack@.contains(
                w,
            ) by {
                let i = choose|i: int| 0 <= i < stack_pre.len() && stack_pre[i] == w;
                if i < stack_pre.len() - 1 {
                    assert(stack@[i] == w);
                }
            }
        }
        if node == v {
            return true;
        }
        if !visited[node] {
            proof {
                lemma_count_trues_update(visited@, node as int);
                lemma_count_trues_bound(visited@);
            }
            visited[node] = true;
            proof {
                lemma_count_trues_bound(visited@);
                assert forall|x: usize, w: usize|
                    x < n && visited@[x as int] && #[trigger] has_edge(g, x, w)
                        implies visited@[w as int] || stack@.contains(w) || (x == node && exists|
                    kk: int,
                |
                    0 <= kk < g[node as int].len() && g[node as int][kk] == w) by {
                    if x == node {
                        assert(g[node as int].contains(w));
                    } else {
                        assert(stack_pre.contains(w) ==> w == node || stack@.contains(w));
                    }
                }
            }
            let row_len = adj[node].len();
            let mut k: usize = 0;
            while k < row_len
                invariant
                    n == g.len(),
                    g == view_adj(adj@),
                    wf_adj(g),
                    u < n,
                    v < n,
                    node < n,
                    row_len == g[node as int].len(),
                    k <= row_len,
                    visited@.len() == n,
                    0 <= count_trues(visited@) <= n,
                    visited@[node as int],
                    !visited@[v as int],
                    reachable(g, u, node),
                    forall|kk: int| 0 <= kk < stack@.len() ==> (#[trigger] stack@[kk]) < n,
                    forall|kk: int| 0 <= kk < stack@.len() ==> reachable(g, u, #[trigger] stack@[kk]),
                    forall|x: usize| x < n && visited@[x as int] ==> reachable(g, u, x),
                    forall|x: usize, w: usize|
                        x < n && visited@[x as int] && #[trigger] has_edge(g, x, w)
                            ==> visited@[w as int] || stack@.contains(w) || (x == node
                            && exists|kk: int|
                            k <= kk < g[node as int].len() && g[node as int][kk] == w),
                    visited@[u as int] || stack@.contains(u),
                decreases row_len - k,
            {
                let next = adj[node][k];
                proof {
                    assert(g[node as int][k as int] < n);
                    assert(g[node as int].contains(next));
                    assert(has_edge(g, node, next));
                    lemma_edge_reachable(g, node, next);
                    lemma_reachable_trans(g, u, node, next);
                }
                let ghost stack_in = stack@;
                stack.push(next);
                proof {
                    assert forall|w: usize| stack_in.contains(w) implies stack@.contains(w) by {
                        let i = choose|i: int| 0 <= i < stack_in.len() && stack_in[i] == w;
                        assert(stack@[i] == w);
                    }
                    assert(stack@[stack@.len() - 1] == next);
                    assert(stack@.contains(next));
                }
                k += 1;
            }
        }
    }
    proof {
        let s = Set::new(|x: usize| x < n && visited@[x as int]);
        assert forall|x: usize, w: usize| s.contains(x) && #[trigger] has_edge(g, x, w) implies s
            .contains(w) by {
            let kk = choose|kk: int| 0 <= kk < g[x as int].len() && g[x as int][kk] == w;
            assert(g[x as int][kk] < n);
        }
        assert(s.contains(u));
        assert(!s.contains(v));
        if reachable(g, u, v) {
            let p = choose|p: Seq<usize>| is_walk(g, p, u, v);
            lemma_closed_set_blocks(g, s, p, u, v);
        }
    }
    false
}

/// A pre-compilation task graph.  Tasks and the resources they use are
/// declared here in execution order; compiling computes the hazard edges
/// and levels the tasks into batches.
pub struct TaskGraph {
    tasks: Vec<Task>,
    images: Vec<ImageID>,
    buffers: Vec<BufferID>,
    image_views: Vec<ImageViewID>,
}

impl TaskGraph {
    /// The declared resource-access lists, in task order.
    pub closed spec fn tasks_view(self) -> Seq<Seq<TaskResource>> {
        Seq::new(self.tasks@.len(), |i: int| self.tasks@[i]@)
    }

    /// The registered image slots, in registration order.
    pub closed spec fn images_view(self) -> Seq<ImageID> {
        self.images@
    }

    /// The registered buffer slots, in registration order.
    pub closed spec fn buffers_view(self) -> Seq<BufferID> {
        self.buffers@
    }

    /// The registered image-view slots, in registration order.
    pub closed spec fn image_views_view(self) -> Seq<ImageViewID> {
        self.image_views@
    }

    /// Creates an empty task graph.
    pub fn new() -> (r: TaskGraph)
        ensures
            r.tasks_view() =~= Seq::<Seq<TaskResource>>::empty(),
    {
        TaskGraph { tasks: Vec::new(), images: Vec::new(), buffers: Vec::new(), image_views: Vec::new() }
    }

    /// Registers an image with the graph and returns its task-local slot.
    pub fn use_image(&mut self, image_id: ImageID) -> (r: TaskImageId)
        ensures
            r.0 == old(self).images_view().len(),
            final(self).images_view() == old(self).images_view().push(image_id),
            final(self).buffers_view() == old(self).buffers_view(),
            final(self).image_views_view() == old(self).image_views_view(),
            final(self).tasks_view() == old(self).tasks_view(),
    {
        self.images.push(image_id);
        TaskImageId(self.images.len() - 1)
    }

    /// Registers a buffer with the graph and returns its task-local slot.
    pub fn use_buffer(&mut self, buffer_id: BufferID) -> (r: TaskBufferId)
        ensures
            r.0 == old(self).buffers_view().len(),
            final(self).buffers_view() == old(self).buffers_view().push(buffer_id),
            final(self).images_view() == old(self).images_view(),
            final(self).image_views_view() == old(self).image_views_view(),
            final(self).tasks_view() == old(self).tasks_view(),
    {
        self.buffers.push(buffer_id);
        TaskBufferId(self.buffers.len() - 1)
    }

    /// Registers an image view with the graph and returns its task-local
    /// slot.
    pub fn use_image_view(&mut self, image_view_id: ImageViewID) -> (r: TaskImageViewId)
        ensures
            r.0 == old(self).image_views_view().len(),
            final(self).image_views_view() == old(self).image_views_view().push(image_view_id),
            final(self).images_view() == old(self).images_view(),
            final(self).buffers_view() == old(self).buffers_view(),
            final(self).tasks_view() == old(self).tasks_view(),
    {
        self.image_views.push(image_view_id);
        TaskImageViewId(self.image_views.len() - 1)
    }

    /// Checks whether `b` has a dependency on `a`: some resource access of
    /// `a` and some access of `b` name the same resource, and they are not
    /// both plain reads.
    pub fn check_dependencies(a: &Task, b: &Task) -> (r: bool)
        ensures
            r == tasks_conflict(a@, b@),
    {
        let mut x: usize = 0;
        while x < a.resources.len()
            invariant
                x <= a.resources@.len(),
                forall|x2: int, y2: int|
                    0 <= x2 < x && 0 <= y2 < b.resources@.len() ==> !TaskResource::conflicts_spec(
                        a.resources@[x2],
                        b.resources@[y2],
                    ),
            decreases a.resources@.len() - x,
        {
            let mut y: usize = 0;
            while y < b.resources.len()
                invariant
                    x < a.resources@.len(),
                    y <= b.resources@.len(),
                    forall|x2: int, y2: int|
                        0 <= x2 < x && 0 <= y2 < b.resources@.len()
                            ==> !TaskResource::conflicts_spec(a.resources@[x2], b.resources@[y2]),
                    forall|y2: int|
                        0 <= y2 < y ==> !TaskResource::conflicts_spec(
                            a.resources@[x as int],
                            b.resources@[y2],
                        ),
                decreases b.resources@.len() - y,
            {
                if TaskResource::same_resource(&a.resources[x], &b.resources[y]) {
                    let access_a = a.resources[x].get_access();
                    let access_b = b.resources[y].get_access();
                    if !(matches!(access_a, TaskAccess::Read) && matches!(
                        access_b,
                        TaskAccess::Read,
                    )) {
                        proof {
                            assert(TaskResource::conflicts_spec(
                                a.resources@[x as int],
                                b.resources@[y as int],
                            ));
                        }
                        return true;
                    }
                }
                y += 1;
            }
            x += 1;
        }
        false
    }

    /// Builds the dependency graph of the declared tasks: for every ordered
    /// pair `j < i` whose tasks conflict, records that `i` depends on `j`,
    /// then reduces the edge set.  The result lists only true hazards, still
    /// connects `i` to `j` whenever the full pairwise scan did, and carries
    /// no redundant edge — it is the transitive reduction of the pairwise
    /// hazard graph, which for this acyclic graph is unique.
    pub fn create_adjacency_list(&self) -> (r: Vec<Vec<usize>>)
        ensures
            r@.len() == self.tasks_view().len(),
            wf_adj(view_adj(r@)),
            no_dup_adj(view_adj(r@)),
            no_redundant_edges(view_adj(r@)),
            forall|i: usize, j: usize|
                #[trigger] has_edge(view_adj(r@), i, j) ==> hazard_edge(
                    self.tasks_view(),
                    i as int,
                    j as int,
                ),
            forall|i: usize, j: usize|
                hazard_edge(self.tasks_view(), i as int, j as int) ==> reachable(view_adj(r@), i, j),
    {
        let ghost tv = self.tasks_view();
        let n = self.tasks.len();
        let mut edges: Vec<Vec<usize>> = Vec::new();
        let mut i: usize = 0;
        while i < n
            invariant
                i <= n,
                n == self.tasks@.len(),
                tv == self.tasks_view(),
                edges@.len() == i,
                forall|a: int| 0 <= a < i ==> (#[trigger] edges@[a])@.no_duplicates(),
                forall|a: int, k: int|
                    0 <= a < i && 0 <= k < edges@[a]@.len() ==> (#[trigger] edges@[a]@[k]) < a,
                forall|a: int, j: usize|
                    0 <= a < i ==> ((#[trigger] edges@[a]@.contains(j)) <==> hazard_edge(
                        tv,
                        a,
                        j as int,
                    )),
            decreases n - i,
        {
            let mut row: Vec<usize> = Vec::new();
            let mut j: usize = 0;
            while j < i
                invariant
                    j <= i < n,
                    n == self.tasks@.len(),
                    tv == self.tasks_view(),
                    row@.no_duplicates(),
                    forall|k: int| 0 <= k < row@.len() ==> (#[trigger] row@[k]) < j,
                    forall|jj: usize|
                        #[trigger] row@.contains(jj) <==> (jj < j && tasks_conflict(
                            tv[jj as int],
                            tv[i as int],
                        )),
                decreases i - j,
            {
                if TaskGraph::check_dependencies(&self.tasks[j], &self.tasks[i]) {
                    let ghost row0 = row@;
                    row.push(j);
                    proof {
                        assert forall|k1: int, k2: int| 0 <= k1 < k2 < row@.len() implies row@[k1]
                            != row@[k2] by {
                            if k2 == row@.len() - 1 {
                                assert(row@[k1] == row0[k1]);
                            }
                        }
                        assert(row@.no_duplicates());
                    }
                }
                j += 1;
            }
            edges.push(row);
            i += 1;
        }
        let ghost dense = view_adj(edges@);
        proof {
            assert forall|a: int, k: int|
                0 <= a < dense.len() && 0 <= k < dense[a].len() implies (#[trigger] dense[a][k])
                < dense.len() by {
                assert(edges@[a]@[k] < a);
            }
            assert(wf_adj(dense));
            assert forall|a: int| 0 <= a < dense.len() implies (#[trigger] dense[a])
                .no_duplicates() by {
                assert(edges@[a]@.no_duplicates());
            }
        }
        TaskGraph::transitive_reduction(&mut edges);
        proof {
            assert forall|i2: usize, j2: usize| #[trigger] has_edge(view_adj(edges@), i2, j2)
                implies hazard_edge(tv, i2 as int, j2 as int) by {
                assert(has_edge(dense, i2, j2));
                assert(dense[i2 as int].contains(j2));
            }
            assert forall|i2: usize, j2: usize|
                hazard_edge(tv, i2 as int, j2 as int) implies reachable(
                view_adj(edges@),
                i2,
                j2,
            ) by {
                assert(dense[i2 as int].contains(j2));
                assert(has_edge(dense, i2, j2));
                lemma_edge_reachable(dense, i2, j2);
                assert(reachable(dense, i2, j2) == reachable(view_adj(edges@), i2, j2));
            }
        }
        edges
    }

    /// Transitive reduction: for each edge, checks whether its endpoints
    /// stay connected once the edge is removed, and drops the edge if so.
    /// The surviving edges are a subset of the input's, reachability is
    /// exactly preserved — so no ordering constraint is lost and none is
    /// invented — and no surviving edge is redundant: dropping any one of
    /// them would lose reachability.  For an acyclic input this is the
    /// minimal edge set with the input's reachability.
    pub fn transitive_reduction(adj: &mut Vec<Vec<usize>>)
        requires
            wf_adj(view_adj(old(adj)@)),
        ensures
            final(adj)@.len() == old(adj)@.len(),
            wf_adj(view_adj(final(adj)@)),
            edges_subset(view_adj(final(adj)@), view_adj(old(adj)@)),
            same_reachability(view_adj(old(adj)@), view_adj(final(adj)@)),
            no_redundant_edges(view_adj(final(adj)@)),
            no_dup_adj(view_adj(old(adj)@)) ==> no_dup_adj(view_adj(final(adj)@)),
    {
        let ghost g0 = view_adj(old(adj)@);
        let n = adj.len();
        let mut u: usize = 0;
        while u < n
            invariant
                adj@.len() == n,
                g0 == view_adj(old(adj)@),
                g0.len() == n,
                wf_adj(view_adj(adj@)),
                edges_subset(view_adj(adj@), g0),
                same_reachability(g0, view_adj(adj@)),
                no_dup_adj(g0) ==> no_dup_adj(view_adj(adj@)),
                forall|a: usize, b: usize|
                    #[trigger] has_edge(view_adj(adj@), a, b) && a < u ==> edge_irredundant(
                        view_adj(adj@),
                        a,
                        b,
                    ),
            decreases n - u,
        {
            let neighbors = copy_row(&adj[u]);
            proof {
                let gs = view_adj(adj@);
                assert forall|k: int| 0 <= k < neighbors@.len() implies neighbors@[k] < n
                    && reachable(g0, u, #[trigger] neighbors@[k]) by {
                    assert(gs[u as int][k] < n);
                    assert(gs[u as int].contains(neighbors@[k]));
                    assert(has_edge(gs, u, neighbors@[k]));
                    lemma_edge_reachable(gs, u, neighbors@[k]);
                }
            }
            let mut idx: usize = 0;
            while idx < neighbors.len()
                invariant
                    u < n,
                    adj@.len() == n,
                    g0 == view_adj(old(adj)@),
                    g0.len() == n,
                    idx <= neighbors@.len(),
                    wf_adj(view_adj(adj@)),
                    edges_subset(view_adj(adj@), g0),
                    same_reachability(g0, view_adj(adj@)),
                    no_dup_adj(g0) ==> no_dup_adj(view_adj(adj@)),
                    forall|k: int|
                        0 <= k < neighbors@.len() ==> neighbors@[k] < n && reachable(
                            g0,
                            u,
                            #[trigger] neighbors@[k],
                        ),
                    forall|b: usize| has_edge(view_adj(adj@), u, b) ==> neighbors@.contains(b),
                    forall|a: usize, b: usize|
                        #[trigger] has_edge(view_adj(adj@), a, b) && (a < u || (a == u
                            && neighbors@.take(idx as int).contains(b))) ==> edge_irredundant(
                            view_adj(adj@),
                            a,
                            b,
                        ),
                decreases neighbors@.len() - idx,
            {
                let v = neighbors[idx];
                let ghost gb = view_adj(adj@);
                remove_value(adj, u, v);
                let ghost gm = view_adj(adj@);
                proof {
                    assert forall|a: usize, b: usize| #[trigger] has_edge(gm, a, b) implies
                        has_edge(gb, a, b) && !(a == u && b == v) by {
                        if a != u {
                            assert(gm[a as int] == gb[a as int]);
                        }
                    }
                    assert forall|a: usize, b: usize|
                        has_edge(gb, a, b) && !(a == u && b == v) implies #[trigger] has_edge(
                        gm,
                        a,
                        b,
                    ) by {
                        if a != u {
                            assert(gm[a as int] == gb[a as int]);
                        }
                    }
                    assert(removes_one_edge(gb, gm, u, v));
                    assert forall|a: int, k: int|
                        0 <= a < gm.len() && 0 <= k < gm[a].len() implies (#[trigger] gm[a][k])
                        < gm.len() by {
                        assert(gm[a].contains(gm[a][k]));
                        assert(has_edge(gm, a as usize, gm[a][k]));
                        assert(has_edge(gb, a as usize, gm[a][k]));
                    }
                    assert(wf_adj(gm));
                    if no_dup_adj(g0) {
                        assert forall|a: int| 0 <= a < gm.len() implies (#[trigger] gm[a])
                            .no_duplicates() by {
                            assert(gb[a].no_duplicates());
                            if a != u {
                                assert(gm[a] == gb[a]);
                            }
                        }
                        assert(no_dup_adj(gm));
                    }
                }
                if !is_reachable(adj, u, v) {
                    proof {
                        // The edge was genuinely needed.  It is still in the
                        // current graph's closure (`v` was a neighbor of `u`
                        // when this row was first read), so it must have been
                        // present just before the removal.
                        if !gb[u as int].contains(v) {
                            assert forall|a: usize, b: usize| #[trigger] has_edge(gm, a, b)
                                <==> has_edge(gb, a, b) by {
                                if a < n && a != u {
                                    assert(gm[a as int] == gb[a as int]);
                                }
                            }
                            lemma_reachable_mono(gb, gm, u, v);
                            assert(false);
                        }
                    }
                    let ghost row_m = gm[u as int];
                    adj[u].push(v);
                    let ghost ga = view_adj(adj@);
                    proof {
                        assert(ga[u as int] == row_m.push(v));
                        assert forall|a: usize, b: usize| #[trigger] has_edge(ga, a, b)
                            <==> has_edge(gb, a, b) by {
                            if a < n && a != u {
                                assert(ga[a as int] == gb[a as int]);
                            } else if a == u {
                                assert(ga[u as int].contains(b) <==> (row_m.contains(b) || b
                                    == v));
                            }
                        }
                        assert forall|a: usize, b: usize| reachable(ga, a, b) == reachable(
                            gb,
                            a,
                            b,
                        ) by {
                            if reachable(ga, a, b) {
                                lemma_reachable_mono(ga, gb, a, b);
                            }
                            if reachable(gb, a, b) {
                                lemma_reachable_mono(gb, ga, a, b);
                            }
                        }
                        assert forall|a: usize, b: usize|
                            #![trigger reachable(g0, a, b)]
                            #![trigger reachable(ga, a, b)]
                            reachable(g0, a, b) == reachable(ga, a, b) by {
                            assert(reachable(g0, a, b) == reachable(gb, a, b));
                        }
                        assert forall|a: int, k: int|
                            0 <= a < ga.len() && 0 <= k < ga[a].len() implies (#[trigger] ga[a][k])
                            < ga.len() by {
                            assert(ga[a].contains(ga[a][k]));
                            assert(has_edge(ga, a as usize, ga[a][k]));
                            assert(has_edge(gb, a as usize, ga[a][k]));
                        }
                        if no_dup_adj(g0) {
                            assert(!row_m.contains(v));
                            assert forall|j1: int, j2: int|
                                0 <= j1 < j2 < ga[u as int].len() implies ga[u as int][j1]
                                != ga[u as int][j2] by {
                                if j2 == ga[u as int].len() - 1 {
                                    assert(ga[u as int][j1] == row_m[j1]);
                                    assert(row_m.contains(row_m[j1]));
                                }
                            }
                            assert forall|a: int| 0 <= a < ga.len() implies (#[trigger] ga[a])
                                .no_duplicates() by {
                                if a != u {
                                    assert(ga[a] == gm[a]);
                                }
                            }
                        }
                        // The re-added edge is certified: without it, `v` is
                        // unreachable from `u`, and that stays true of the
                        // graph with the edge put back.
                        assert(gm == remove_edge(gb, u, v));
                        lemma_remove_edge_char(ga, u, v);
                        lemma_remove_edge_char(gb, u, v);
                        assert forall|x: usize, y: usize|
                            #[trigger] has_edge(remove_edge(ga, u, v), x, y) implies has_edge(
                            gm,
                            x,
                            y,
                        ) by {
                            assert(has_edge(ga, x, y) && !(x == u && y == v));
                            assert(has_edge(gb, x, y));
                        }
                        assert forall|x: usize, y: usize| #[trigger] has_edge(gm, x, y)
                            implies has_edge(remove_edge(ga, u, v), x, y) by {
                            assert(has_edge(gb, x, y) && !(x == u && y == v));
                            assert(has_edge(ga, x, y));
                        }
                        lemma_same_edges_reachable(remove_edge(ga, u, v), gm, u, v);
                        assert(edge_irredundant(ga, u, v));
                        assert(edges_subset(ga, gb));
                        assert(edges_subset(gb, ga));
                        assert(neighbors@.take(idx as int + 1) =~= neighbors@.take(
                            idx as int,
                        ).push(v));
                        assert forall|a: usize, b: usize|
                            #[trigger] has_edge(ga, a, b) && (a < u || (a == u
                                && neighbors@.take(idx as int + 1).contains(b)))
                            implies edge_irredundant(ga, a, b) by {
                            if !(a == u && b == v) {
                                assert(has_edge(gb, a, b));
                                assert(edge_irredundant(gb, a, b));
                                lemma_irredundant_same_edges(ga, gb, a, b);
                            }
                        }
                        assert forall|b: usize| #[trigger] has_edge(ga, u, b)
                            implies neighbors@.contains(b) by {
                            if b != v {
                                assert(has_edge(gb, u, b));
                            } else {
                                assert(neighbors@[idx as int] == v);
                            }
                        }
                    }
                } else {
                    proof {
                        lemma_remove_redundant_edge(gb, gm, u, v);
                        assert forall|a: usize, b: usize|
                            #![trigger reachable(g0, a, b)]
                            #![trigger reachable(gm, a, b)]
                            reachable(g0, a, b) == reachable(gm, a, b) by {
                            assert(reachable(g0, a, b) == reachable(gb, a, b));
                            assert(reachable(gb, a, b) == reachable(gm, a, b));
                        }
                        assert forall|a: usize, b: usize| #[trigger] has_edge(gm, a, b) implies
                            has_edge(g0, a, b) by {
                            assert(has_edge(gb, a, b));
                        }
                        if no_dup_adj(g0) {
                            assert forall|a: int| 0 <= a < gm.len() implies (#[trigger] gm[a])
                                .no_duplicates() by {
                                if a != u {
                                    assert(gm[a] == gb[a]);
                                }
                            }
                        }
                        // Every already-certified edge stays certified: the
                        // graph only lost an edge, which cannot create a new
                        // detour around any surviving edge.
                        assert(edges_subset(gm, gb));
                        assert(neighbors@.take(idx as int + 1) =~= neighbors@.take(
                            idx as int,
                        ).push(v));
                        assert forall|a: usize, b: usize|
                            #[trigger] has_edge(gm, a, b) && (a < u || (a == u
                                && neighbors@.take(idx as int + 1).contains(b)))
                            implies edge_irredundant(gm, a, b) by {
                            assert(has_edge(gb, a, b) && !(a == u && b == v));
                            assert(edge_irredundant(gb, a, b));
                            lemma_irredundant_mono(gm, gb, a, b);
                        }
                        assert forall|b: usize| #[trigger] has_edge(gm, u, b)
                            implies neighbors@.contains(b) by {
                            assert(has_edge(gb, u, b));
                        }
                    }
                }
                idx += 1;
            }
            proof {
                let gcur = view_adj(adj@);
                assert(neighbors@.take(neighbors@.len() as int) =~= neighbors@);
                assert forall|a: usize, b: usize|
                    #[trigger] has_edge(gcur, a, b) && a < u + 1 implies edge_irredundant(
                    gcur,
                    a,
                    b,
                ) by {
                    if a == u {
                        assert(neighbors@.contains(b));
                    }
                }
            }
            u += 1;
        }
    }

    /// Kahn's algorithm, batched by frontier: counts, for every task, how
    /// many later tasks list it; repeatedly takes the tasks no unprocessed
    /// task lists as one batch; and finally reverses the batch list, so
    /// that batches of dependencies come before the batches of the tasks
    /// that depend on them.  The result places every task in exactly one
    /// batch and every dependency strictly before its dependents.
    #[verifier::rlimit(60)]
    pub fn toplogical_sort(adj_list: &Vec<Vec<usize>>) -> (batches: Vec<Vec<usize>>)
        requires
            wf_adj(view_adj(adj_list@)),
            no_dup_adj(view_adj(adj_list@)),
            forall|u: usize, v: usize| #[trigger] has_edge(view_adj(adj_list@), u, v) ==> v < u,
        ensures
            valid_batches(view_adj(adj_list@), view_adj(batches@)),
    {
        let ghost g = view_adj(adj_list@);
        let n = adj_list.len();
        let mut indegrees: Vec<usize> = filled(0, n);
        let mut u: usize = 0;
        while u < n
            invariant
                u <= n,
                n == g.len(),
                g == view_adj(adj_list@),
                wf_adj(g),
                no_dup_adj(g),
                indegrees@.len() == n,
                forall|v: usize|
                    v < n ==> indegrees@[v as int] == pred_count(g, v, Set::empty(), u as int),
            decreases n - u,
        {
            let row_len = adj_list[u].len();
            let mut k: usize = 0;
            while k < row_len
                invariant
                    u < n,
                    n == g.len(),
                    g == view_adj(adj_list@),
                    wf_adj(g),
                    no_dup_adj(g),
                    row_len == g[u as int].len(),
                    k <= row_len,
                    indegrees@.len() == n,
                    forall|v: usize|
                        v < n ==> indegrees@[v as int] == pred_count(g, v, Set::empty(), u as int)
                            + if g[u as int].take(k as int).contains(v) {
                            1int
                        } else {
                            0int
                        },
                decreases row_len - k,
            {
                let w = adj_list[u][k];
                proof {
                    assert(g[u as int][k as int] < n);
                    assert(g[u as int].no_duplicates());
                    assert(!g[u as int].take(k as int).contains(w)) by {
                        if g[u as int].take(k as int).contains(w) {
                            let j = choose|j: int|
                                0 <= j < k && g[u as int].take(k as int)[j] == w;
                            assert(g[u as int][j] == g[u as int][k as int]);
                        }
                    }
                    lemma_pred_count_bound(g, w, Set::empty(), u as int);
                }
                let cur = indegrees[w];
                indegrees[w] = cur + 1;
                proof {
                    assert(g[u as int].take(k as int + 1) =~= g[u as int].take(k as int).push(w));
                }
                k += 1;
            }
            proof {
                assert(g[u as int].take(row_len as int) =~= g[u as int]);
                assert forall|v: usize| v < n implies indegrees@[v as int] == pred_count(
                    g,
                    v,
                    Set::empty(),
                    u as int + 1,
                ) by {
                    assert(has_edge(g, u, v) <==> g[u as int].contains(v));
                }
            }
            u += 1;
        }
        let mut frontier: Vec<usize> = Vec::new();
        let mut i: usize = 0;
        while i < n
            invariant
                i <= n,
                n == g.len(),
                g == view_adj(adj_list@),
                indegrees@.len() == n,
                forall|v: usize|
                    v < n ==> indegrees@[v as int] == pred_count(g, v, Set::empty(), n as int),
                frontier@.no_duplicates(),
                forall|k: int| 0 <= k < frontier@.len() ==> (#[trigger] frontier@[k]) < i,
                forall|v: usize|
                    v < i ==> (frontier@.contains(v) <==> pred_count(g, v, Set::empty(), n as int)
                        == 0),
            decreases n - i,
        {
            if indegrees[i] == 0 {
                let ghost f0 = frontier@;
                frontier.push(i);
                proof {
                    assert forall|k1: int, k2: int| 0 <= k1 < k2 < frontier@.len() implies frontier@[k1]
                        != frontier@[k2] by {
                        if k2 == frontier@.len() - 1 {
                            assert(frontier@[k1] == f0[k1]);
                        }
                    }
                    assert(frontier@.no_duplicates());
                }
            }
            i += 1;
        }
        let ghost mut done = Set::<usize>::empty();
        let mut batches_rev: Vec<Vec<usize>> = Vec::new();
        proof {
            assert forall|k: int, a: usize|
                0 <= k < frontier@.len() && #[trigger] has_edge(g, a, frontier@[k])
                    implies done.contains(a) by {
                assert(frontier@.contains(frontier@[k]));
                assert(pred_count(g, frontier@[k], Set::<usize>::empty(), n as int) == 0);
                lemma_pred_count_zero(g, frontier@[k], Set::empty(), n as int);
                assert(Set::<usize>::empty().contains(a));
            }
            broadcast use vstd::seq_lib::seq_to_set_is_finite;

            frontier@.unique_seq_to_set();
            assert forall|x: usize| #[trigger] frontier@.to_set().contains(x) implies x < n by {}
            lemma_vertex_set_bound(frontier@.to_set(), n);
            assert(done.len() + frontier@.len() <= n);
        }
        while frontier.len() > 0
            invariant
                n == g.len(),
                g == view_adj(adj_list@),
                wf_adj(g),
                no_dup_adj(g),
                forall|a: usize, b: usize| #[trigger] has_edge(g, a, b) ==> b < a,
                indegrees@.len() == n,
                done.finite(),
                done.len() + frontier@.len() <= n,
                forall|i2: int, k2: int|
                    0 <= i2 < batches_rev@.len() && 0 <= k2 < batches_rev@[i2]@.len() ==> (
                    #[trigger] batches_rev@[i2]@[k2]) < n && done.contains(batches_rev@[i2]@[k2]),
                forall|x: usize|
                    #[trigger] done.contains(x) ==> x < n && in_prefix(
                        view_adj(batches_rev@),
                        x,
                        batches_rev@.len() as int,
                    ),
                forall|i1: int, k1: int, i2: int, k2: int|
                    0 <= i1 < batches_rev@.len() && 0 <= k1 < batches_rev@[i1]@.len() && 0 <= i2
                        < batches_rev@.len() && 0 <= k2 < batches_rev@[i2]@.len() && (
                    #[trigger] batches_rev@[i1]@[k1]) == (#[trigger] batches_rev@[i2]@[k2]) ==> i1
                        == i2 && k1 == k2,
                forall|i2: int|
                    0 <= i2 < batches_rev@.len() ==> (#[trigger] batches_rev@[i2])@.len() > 0,
                forall|i2: int, k2: int, a: usize|
                    0 <= i2 < batches_rev@.len() && 0 <= k2 < batches_rev@[i2]@.len()
                        && #[trigger] has_edge(g, a, batches_rev@[i2]@[k2]) ==> in_prefix(
                        view_adj(batches_rev@),
                        a,
                        i2,
                    ),
                forall|i2: int, k2: int|
                    1 <= i2 < batches_rev@.len() && 0 <= k2 < batches_rev@[i2]@.len()
                        ==> has_dependent_in(
                        g,
                        #[trigger] batches_rev@[i2]@[k2],
                        batches_rev@[i2 - 1]@,
                    ),
                forall|x: usize, a: usize|
                    done.contains(x) && #[trigger] has_edge(g, a, x) ==> done.contains(a),
                frontier@.no_duplicates(),
                forall|k: int| 0 <= k < frontier@.len() ==> (#[trigger] frontier@[k]) < n,
                forall|k: int|
                    0 <= k < frontier@.len() ==> !done.contains(#[trigger] frontier@[k]),
                forall|k: int, a: usize|
                    0 <= k < frontier@.len() && #[trigger] has_edge(g, a, frontier@[k])
                        ==> done.contains(a),
                batches_rev@.len() > 0 ==> forall|k: int|
                    0 <= k < frontier@.len() ==> has_dependent_in(
                        g,
                        #[trigger] frontier@[k],
                        batches_rev@[batches_rev@.len() - 1]@,
                    ),
                forall|v: usize|
                    v < n ==> indegrees@[v as int] == pred_count(g, v, done, n as int),
                forall|v: usize|
                    v < n && pred_count(g, v, done, n as int) == 0 ==> done.contains(v)
                        || frontier@.contains(v),
            decreases n - done.len(),
        {
            let flen = frontier.len();
            let mut next: Vec<usize> = Vec::new();
            let mut t: usize = 0;
            proof {
                assert(settled(done, frontier@, 0) =~= done);
            }
            while t < flen
                invariant
                    t <= flen,
                    flen == frontier@.len(),
                    n == g.len(),
                    g == view_adj(adj_list@),
                    wf_adj(g),
                    no_dup_adj(g),
                    forall|a: usize, b: usize| #[trigger] has_edge(g, a, b) ==> b < a,
                    indegrees@.len() == n,
                    done.finite(),
                    forall|x: usize, a: usize|
                        done.contains(x) && #[trigger] has_edge(g, a, x) ==> done.contains(a),
                    forall|x: usize| #[trigger] done.contains(x) ==> x < n,
                    frontier@.no_duplicates(),
                    forall|k: int| 0 <= k < frontier@.len() ==> (#[trigger] frontier@[k]) < n,
                    forall|k: int|
                        0 <= k < frontier@.len() ==> !done.contains(#[trigger] frontier@[k]),
                    forall|k: int, a: usize|
                        0 <= k < frontier@.len() && #[trigger] has_edge(g, a, frontier@[k])
                            ==> done.contains(a),
                    forall|v: usize|
                        v < n ==> indegrees@[v as int] == pred_count(
                            g,
                            v,
                            settled(done, frontier@, t as int),
                            n as int,
                        ),
                    next@.no_duplicates(),
                    forall|k: int| 0 <= k < next@.len() ==> (#[trigger] next@[k]) < n,
                    forall|k: int|
                        0 <= k < next@.len() ==> !done.contains(#[trigger] next@[k])
                            && !frontier@.contains(next@[k]),
                    forall|k: int, a: usize|
                        0 <= k < next@.len() && #[trigger] has_edge(g, a, next@[k])
                            ==> done.contains(a) || frontier@.contains(a),
                    forall|k: int|
                        0 <= k < next@.len() ==> has_dependent_in(g, #[trigger] next@[k], frontier@),
                    forall|k: int|
                        0 <= k < next@.len() ==> indegrees@[(#[trigger] next@[k]) as int] == 0,
                    forall|v: usize|
                        v < n && indegrees@[v as int] == 0 ==> done.contains(v)
                            || frontier@.contains(v) || next@.contains(v),
                decreases flen - t,
            {
                let uu = frontier[t];
                let ghost ex_t = settled(done, frontier@, t as int);
                proof {
                    assert(!ex_t.contains(uu)) by {
                        assert(!done.contains(uu));
                        if frontier@.take(t as int).contains(uu) {
                            let j = choose|j: int|
                                0 <= j < t && frontier@.take(t as int)[j] == uu;
                            assert(frontier@[j] == frontier@[t as int]);
                        }
                    }
                }
                let row_len = adj_list[uu].len();
                let mut k: usize = 0;
                while k < row_len
                    invariant
                        t < flen,
                        flen == frontier@.len(),
                        n == g.len(),
                        g == view_adj(adj_list@),
                        wf_adj(g),
                        no_dup_adj(g),
                        forall|a: usize, b: usize| #[trigger] has_edge(g, a, b) ==> b < a,
                        uu == frontier@[t as int],
                        uu < n,
                        ex_t == settled(done, frontier@, t as int),
                        !ex_t.contains(uu),
                        row_len == g[uu as int].len(),
                        k <= row_len,
                        indegrees@.len() == n,
                        done.finite(),
                        forall|x: usize, a: usize|
                            done.contains(x) && #[trigger] has_edge(g, a, x) ==> done.contains(a),
                        forall|x: usize| #[trigger] done.contains(x) ==> x < n,
                        frontier@.no_duplicates(),
                        forall|kk: int| 0 <= kk < frontier@.len() ==> (#[trigger] frontier@[kk]) < n,
                        forall|kk: int|
                            0 <= kk < frontier@.len() ==> !done.contains(#[trigger] frontier@[kk]),
                        forall|kk: int, a: usize|
                            0 <= kk < frontier@.len() && #[trigger] has_edge(g, a, frontier@[kk])
                                ==> done.contains(a),
                        forall|v: usize|
                            v < n ==> indegrees@[v as int] == pred_count(g, v, ex_t, n as int)
                                - if g[uu as int].take(k as int).contains(v) {
                                1int
                            } else {
                                0int
                            },
                        next@.no_duplicates(),
                        forall|kk: int| 0 <= kk < next@.len() ==> (#[trigger] next@[kk]) < n,
                        forall|kk: int|
                            0 <= kk < next@.len() ==> !done.contains(#[trigger] next@[kk])
                                && !frontier@.contains(next@[kk]),
                        forall|kk: int, a: usize|
                            0 <= kk < next@.len() && #[trigger] has_edge(g, a, next@[kk])
                                ==> done.contains(a) || frontier@.contains(a),
                        forall|kk: int|
                            0 <= kk < next@.len() ==> has_dependent_in(
                                g,
                                #[trigger] next@[kk],
                                frontier@,
                            ),
                        forall|kk: int|
                            0 <= kk < next@.len() ==> indegrees@[(#[trigger] next@[kk]) as int]
                                == 0,
                        forall|v: usize|
                            v < n && indegrees@[v as int] == 0 ==> done.contains(v)
                                || frontier@.contains(v) || next@.contains(v),
                    decreases row_len - k,
                {
                    let w = adj_list[uu][k];
                    proof {
                        assert(g[uu as int][k as int] < n);
                        assert(g[uu as int].contains(w));
                        assert(has_edge(g, uu, w));
                        assert(g[uu as int].no_duplicates());
                        assert(!g[uu as int].take(k as int).contains(w)) by {
                            if g[uu as int].take(k as int).contains(w) {
                                let j = choose|j: int|
                                    0 <= j < k && g[uu as int].take(k as int)[j] == w;
                                assert(g[uu as int][j] == g[uu as int][k as int]);
                            }
                        }
                        lemma_pred_count_pos(g, w, ex_t, n as int, uu);
                    }
                    let cur = indegrees[w];
                    let nv = cur - 1;
                    indegrees[w] = nv;
                    if nv == 0 {
                        proof {
                            assert(!done.contains(w)) by {
                                if done.contains(w) {
                                    assert(done.contains(uu));
                                }
                            }
                            assert(!frontier@.contains(w)) by {
                                if frontier@.contains(w) {
                                    let j = choose|j: int|
                                        0 <= j < frontier@.len() && frontier@[j] == w;
                                    assert(has_edge(g, uu, frontier@[j]));
                                    assert(done.contains(uu));
                                }
                            }
                            assert(!next@.contains(w)) by {
                                if next@.contains(w) {
                                    let j = choose|j: int| 0 <= j < next@.len() && next@[j] == w;
                                }
                            }
                            lemma_pred_count_insert(g, w, ex_t, n as int, uu);
                            lemma_pred_count_zero(g, w, ex_t.insert(uu), n as int);
                        }
                        let ghost next0 = next@;
                        next.push(w);
                        proof {
                            assert(frontier@.contains(uu));
                            assert(has_dependent_in(g, w, frontier@)) by {
                                assert(has_edge(g, uu, w) && frontier@.contains(uu));
                            }
                            assert forall|kk: int| 0 <= kk < next@.len() implies has_dependent_in(
                                g,
                                #[trigger] next@[kk],
                                frontier@,
                            ) by {
                                if kk < next@.len() - 1 {
                                    assert(next@[kk] == next0[kk]);
                                } else {
                                    assert(next@[kk] == w);
                                }
                            }
                            assert forall|k1: int, k2: int| 0 <= k1 < k2 < next@.len() implies next@[k1]
                                != next@[k2] by {
                                if k2 == next@.len() - 1 {
                                    assert(next@[k1] == next0[k1]);
                                }
                            }
                            assert(next@.no_duplicates());
                            assert forall|kk: int, a: usize|
                                0 <= kk < next@.len() && #[trigger] has_edge(g, a, next@[kk])
                                    implies done.contains(a) || frontier@.contains(a) by {
                                if kk == next@.len() - 1 {
                                    assert(ex_t.insert(uu).contains(a));
                                    if frontier@.take(t as int).contains(a) {
                                        let j = choose|j: int|
                                            0 <= j < t && frontier@.take(t as int)[j] == a;
                                        assert(frontier@[j] == a);
                                    }
                                    if a == uu {
                                        assert(frontier@.contains(uu));
                                    }
                                }
                            }
                        }
                    }
                    proof {
                        assert(g[uu as int].take(k as int + 1) =~= g[uu as int].take(
                            k as int,
                        ).push(w));
                    }
                    k += 1;
                }
                proof {
                    assert(g[uu as int].take(row_len as int) =~= g[uu as int]);
                    assert(settled(done, frontier@, t as int + 1) =~= ex_t.insert(uu)) by {
                        assert(frontier@.take(t as int + 1) =~= frontier@.take(t as int).push(uu));
                    }
                    assert forall|v: usize| v < n implies indegrees@[v as int] == pred_count(
                        g,
                        v,
                        settled(done, frontier@, t as int + 1),
                        n as int,
                    ) by {
                        lemma_pred_count_insert(g, v, ex_t, n as int, uu);
                        assert(has_edge(g, uu, v) <==> g[uu as int].contains(v));
                    }
                }
                t += 1;
            }
            let ghost brv0 = view_adj(batches_rev@);
            let ghost done0 = done;
            let ghost fseq = frontier@;
            proof {
                broadcast use vstd::seq_lib::seq_to_set_is_finite;

                fseq.unique_seq_to_set();
                assert(done.disjoint(fseq.to_set()));
                lemma_len_disjoint_union(done, fseq.to_set());
                done = done.union(fseq.to_set());
                assert(done.len() == done0.len() + flen);
                assert forall|x: usize| #[trigger] done.contains(x) implies x < n by {}
                lemma_vertex_set_bound(done, n);
                next@.unique_seq_to_set();
                assert(done.disjoint(next@.to_set()));
                lemma_len_disjoint_union(done, next@.to_set());
                lemma_vertex_set_bound(done.union(next@.to_set()), n);
                assert(done.len() + next@.len() <= n);
                assert(settled(done0, fseq, flen as int) =~= done) by {
                    assert(fseq.take(flen as int) =~= fseq);
                }
            }
            batches_rev.push(frontier);
            frontier = next;
            proof {
                let brv = view_adj(batches_rev@);
                assert(brv.len() == brv0.len() + 1);
                assert(brv[brv0.len() as int] == fseq);
                assert forall|i2: int| 0 <= i2 < brv0.len() implies brv[i2] == brv0[i2] by {}
                assert forall|x: usize| #[trigger] done.contains(x) implies x < n && in_prefix(
                    brv,
                    x,
                    brv.len() as int,
                ) by {
                    if done0.contains(x) {
                        assert(in_prefix(brv0, x, brv0.len() as int));
                        let i2 = choose|i2: int|
                            0 <= i2 < brv0.len() && brv0[i2].contains(x);
                        assert(brv[i2].contains(x));
                    } else {
                        assert(fseq.contains(x));
                        assert(brv[brv0.len() as int].contains(x));
                    }
                }
                assert forall|i1: int, k1: int, i2: int, k2: int|
                    0 <= i1 < batches_rev@.len() && 0 <= k1 < batches_rev@[i1]@.len() && 0 <= i2
                        < batches_rev@.len() && 0 <= k2 < batches_rev@[i2]@.len() && (
                #[trigger] batches_rev@[i1]@[k1]) == (#[trigger] batches_rev@[i2]@[k2])
                    implies i1 == i2 && k1 == k2 by {
                    let x = batches_rev@[i1]@[k1];
                    if i1 < brv0.len() && i2 < brv0.len() {
                    } else if i1 < brv0.len() && i2 == brv0.len() {
                        assert(done0.contains(x));
                        assert(fseq.contains(x));
                    } else if i1 == brv0.len() && i2 < brv0.len() {
                        assert(done0.contains(x));
                        assert(fseq.contains(x));
                    } else {
                        assert(fseq.no_duplicates());
                    }
                }
                assert forall|i2: int, k2: int, a: usize|
                    0 <= i2 < batches_rev@.len() && 0 <= k2 < batches_rev@[i2]@.len()
                        && #[trigger] has_edge(g, a, batches_rev@[i2]@[k2]) implies in_prefix(
                    brv,
                    a,
                    i2,
                ) by {
                    let x = batches_rev@[i2]@[k2];
                    if i2 < brv0.len() {
                        assert(in_prefix(brv0, a, i2));
                        let ii = choose|ii: int| 0 <= ii < i2 && ii < brv0.len() && brv0[ii].contains(a);
                        assert(brv[ii].contains(a));
                    } else {
                        assert(fseq.contains(x));
                        assert(done0.contains(a));
                        assert(in_prefix(brv0, a, brv0.len() as int));
                        let ii = choose|ii: int|
                            0 <= ii < brv0.len() && brv0[ii].contains(a);
                        assert(brv[ii].contains(a));
                    }
                }
                assert forall|i2: int, k2: int|
                    1 <= i2 < batches_rev@.len() && 0 <= k2 < batches_rev@[i2]@.len()
                        implies has_dependent_in(
                    g,
                    #[trigger] batches_rev@[i2]@[k2],
                    batches_rev@[i2 - 1]@,
                ) by {
                    assert(batches_rev@[i2 - 1]@ == brv0[i2 - 1]);
                    if i2 == brv0.len() {
                        assert(batches_rev@[i2]@ == fseq);
                        assert(has_dependent_in(g, fseq[k2], brv0[brv0.len() - 1]));
                    } else {
                        assert(batches_rev@[i2]@ == brv0[i2]);
                        assert(has_dependent_in(g, brv0[i2][k2], brv0[i2 - 1]));
                    }
                }
                assert(batches_rev@[batches_rev@.len() - 1]@ == fseq);
                assert forall|k: int| 0 <= k < frontier@.len() implies has_dependent_in(
                    g,
                    #[trigger] frontier@[k],
                    batches_rev@[batches_rev@.len() - 1]@,
                ) by {
                    assert(has_dependent_in(g, frontier@[k], fseq));
                }
            }
        }
        let ghost brv_final = view_adj(batches_rev@);
        let ghost total = batches_rev@.len() as int;
        proof {
            assert forall|v: usize| v < n implies done.contains(v) by {
                lemma_all_settled(g, done, n, v);
            }
            assert forall|i2: int, k2: int|
                0 <= i2 < total && 0 <= k2 < brv_final[i2].len() implies (
            #[trigger] brv_final[i2][k2]) < n by {
                assert(batches_rev@[i2]@[k2] < n);
            }
            assert forall|i1: int, k1: int, i2: int, k2: int|
                0 <= i1 < total && 0 <= k1 < brv_final[i1].len() && 0 <= i2 < total && 0 <= k2
                    < brv_final[i2].len() && (#[trigger] brv_final[i1][k1]) == (
            #[trigger] brv_final[i2][k2]) implies i1 == i2 && k1 == k2 by {
                assert(batches_rev@[i1]@[k1] == batches_rev@[i2]@[k2]);
            }
            assert forall|i2: int, k2: int, a: usize|
                0 <= i2 < total && 0 <= k2 < brv_final[i2].len() && #[trigger] has_edge(
                    g,
                    a,
                    brv_final[i2][k2],
                ) implies in_prefix(brv_final, a, i2) by {
                assert(has_edge(g, a, batches_rev@[i2]@[k2]));
            }
            assert forall|x: usize| x < n implies in_prefix(brv_final, x, total) by {
                assert(done.contains(x));
            }
            assert forall|i2: int| 0 <= i2 < total implies (#[trigger] brv_final[i2]).len()
                > 0 by {
                assert(batches_rev@[i2]@.len() > 0);
            }
            assert forall|i2: int, k2: int|
                1 <= i2 < total && 0 <= k2 < brv_final[i2].len() implies has_dependent_in(
                g,
                #[trigger] brv_final[i2][k2],
                brv_final[i2 - 1],
            ) by {
                assert(batches_rev@[i2]@[k2] == brv_final[i2][k2]);
                assert(batches_rev@[i2 - 1]@ == brv_final[i2 - 1]);
                assert(has_dependent_in(g, batches_rev@[i2]@[k2], batches_rev@[i2 - 1]@));
            }
        }
        let mut batches: Vec<Vec<usize>> = Vec::new();
        while batches_rev.len() > 0
            invariant
                brv_final.len() == total,
                batches@.len() + batches_rev@.len() == total,
                forall|i2: int|
                    0 <= i2 < batches_rev@.len() ==> (#[trigger] batches_rev@[i2])@
                        == brv_final[i2],
                forall|i2: int|
                    0 <= i2 < batches@.len() ==> (#[trigger] batches@[i2])@ == brv_final[total - 1
                        - i2],
            decreases batches_rev@.len(),
        {
            let b = match batches_rev.pop() {
                Some(x) => x,
                None => {
                    proof {
                        assert(false);
                    }
                    Vec::new()
                },
            };
            batches.push(b);
        }
        proof {
            let bv = view_adj(batches@);
            assert(bv.len() == total);
            assert forall|i2: int| 0 <= i2 < total implies (#[trigger] bv[i2]) == brv_final[total
                - 1 - i2] by {
                assert(batches@[i2]@ == brv_final[total - 1 - i2]);
            }
            assert forall|i1: int, k1: int, i2: int, k2: int|
                0 <= i1 < bv.len() && 0 <= k1 < bv[i1].len() && 0 <= i2 < bv.len() && 0 <= k2
                    < bv[i2].len() && (#[trigger] bv[i1][k1]) == (#[trigger] bv[i2][k2])
                implies i1 == i2 && k1 == k2 by {
                assert(brv_final[total - 1 - i1][k1] == brv_final[total - 1 - i2][k2]);
            }
            assert forall|x: usize| x < n implies in_batch(bv, #[trigger] batch_of(bv, x), x) by {
                assert(in_prefix(brv_final, x, total));
                let ii = choose|ii: int|
                    0 <= ii < total && ii < brv_final.len() && #[trigger] brv_final[ii].contains(
                        x,
                    );
                assert(bv[total - 1 - ii] == brv_final[ii]);
                assert(bv[total - 1 - ii].contains(x));
                assert(in_batch(bv, total - 1 - ii, x));
            }
            assert forall|i: int, k: int|
                0 <= i < bv.len() - 1 && 0 <= k < bv[i].len() implies has_dependent_in(
                g,
                #[trigger] bv[i][k],
                bv[i + 1],
            ) by {
                let j = total - 1 - i;
                assert(bv[i] == brv_final[j]);
                assert(bv[i + 1] == brv_final[j - 1]);
                assert(has_dependent_in(g, brv_final[j][k], brv_final[j - 1]));
            }
            assert forall|a: usize, b: usize| #[trigger] has_edge(g, a, b) implies batch_of(bv, b)
                < batch_of(bv, a) by {
                assert(a < n);
                assert(b < n) by {
                    let j = choose|j: int| 0 <= j < g[a as int].len() && g[a as int][j] == b;
                    assert(g[a as int][j] < n);
                }
                assert(in_batch(bv, batch_of(bv, a), a));
                assert(in_batch(bv, batch_of(bv, b), b));
                let ia = total - 1 - batch_of(bv, a);
                let ib = total - 1 - batch_of(bv, b);
                assert(bv[batch_of(bv, a)] == brv_final[ia]);
                assert(bv[batch_of(bv, b)] == brv_final[ib]);
                assert(brv_final[ia].contains(a));
                assert(brv_final[ib].contains(b));
                let ka = choose|kk: int| 0 <= kk < brv_final[ia].len() && brv_final[ia][kk] == a;
                let kb = choose|kk: int| 0 <= kk < brv_final[ib].len() && brv_final[ib][kk] == b;
                assert(has_edge(g, a, brv_final[ib][kb]));
                assert(in_prefix(brv_final, a, ib));
                let ia2 = choose|ii: int|
                    0 <= ii < ib && ii < brv_final.len() && brv_final[ii].contains(a);
                let ka2 = choose|kk: int|
                    0 <= kk < brv_final[ia2].len() && brv_final[ia2][kk] == a;
                assert(brv_final[ia2][ka2] == brv_final[ia][ka]);
                assert(ia2 == ia);
            }
        }
        batches
    }

    /// Compiles the declared task list into an execution plan.
    ///
    /// The hazards between every ordered pair of tasks are computed, the
    /// redundant edges removed, and the remaining graph leveled into
    /// batches.  Every task lands in exactly one batch; whenever an earlier
    /// task `j` and a later task `i` conflict on a resource, `j`'s batch
    /// comes strictly before `i`'s, so walking the batches in order and
    /// fencing between them respects every data hazard.  Tasks in one batch
    /// have no hazard between them and may be recorded concurrently.
    pub fn compile(&self) -> (batches: Vec<Vec<usize>>)
        ensures
            valid_plan(self.tasks_view(), view_adj(batches@)),
    {
        let ghost tv = self.tasks_view();
        let adj_list = self.create_adjacency_list();
        let ghost g = view_adj(adj_list@);
        proof {
            assert forall|a: usize, b: usize| #[trigger] has_edge(g, a, b) implies b < a by {
                assert(hazard_edge(tv, a as int, b as int));
            }
        }
        let batches = TaskGraph::toplogical_sort(&adj_list);
        proof {
            let bv = view_adj(batches@);
            assert forall|i: int, k: int|
                0 <= i < bv.len() - 1 && 0 <= k < bv[i].len() implies has_conflicting_dependent_in(
                tv,
                #[trigger] bv[i][k],
                bv[i + 1],
            ) by {
                assert(has_dependent_in(g, bv[i][k], bv[i + 1]));
                let a = choose|a: usize| has_edge(g, a, bv[i][k]) && #[trigger] bv[i
                    + 1].contains(a);
                assert(hazard_edge(tv, a as int, bv[i][k] as int));
                assert(has_conflicting_dependent_in(tv, bv[i][k], bv[i + 1])) by {
                    assert(hazard_edge(tv, a as int, bv[i][k] as int) && bv[i + 1].contains(a));
                }
            }
            let rank = |x: usize| batch_of(bv, x);
            assert forall|i: usize, j: usize|
                #[trigger] hazard_edge(tv, i as int, j as int) implies batch_of(bv, j) < batch_of(
                bv,
                i,
            ) by {
                assert(reachable(g, i, j));
                let p = choose|p: Seq<usize>| is_walk(g, p, i, j);
                assert forall|a: usize, b: usize| #[trigger] has_edge(g, a, b) implies rank(b)
                    < rank(a) by {
                    assert(batch_of(bv, b) < batch_of(bv, a));
                }
                lemma_rank_decreases(g, rank, p, i, j);
                assert(rank(j) < rank(i));
            }
        }
        batches
    }

    /// Appends a task; its position in the list is its index in the graph.
    pub fn add_task(&mut self, task: Task)
        ensures
            final(self).tasks_view() =~= old(self).tasks_view().push(task@),
            final(self).images_view() == old(self).images_view(),
            final(self).buffers_view() == old(self).buffers_view(),
            final(self).image_views_view() == old(self).image_views_view(),
    {
        self.tasks.push(task);
        proof {
            assert(final(self).tasks_view().len() == old(self).tasks_view().len() + 1);
        }
    }
}

} // verus!
