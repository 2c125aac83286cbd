use vulcany::definations::gpu_resources::ImageLayout;
use vulcany::taskgraph::definations::{
    Task, TaskAccess, TaskBufferAccess, TaskBufferId, TaskImageAccess, TaskImageId, TaskResource,
};
use vulcany::taskgraph::task_graph::TaskGraph;

fn buffer(id: usize, access: TaskAccess) -> TaskResource {
    TaskResource::Buffer(TaskBufferAccess { id: TaskBufferId(id), access })
}

fn image(id: usize, access: TaskAccess) -> TaskResource {
    TaskResource::Image(TaskImageAccess {
        id: TaskImageId(id),
        layout: ImageLayout::General,
        access,
    })
}

fn task(resources: Vec<TaskResource>) -> Task {
    Task { resources }
}

fn graph_of(tasks: Vec<Task>) -> TaskGraph {
    let mut tg = TaskGraph::new();
    for t in tasks {
        tg.add_task(t);
    }
    tg
}

#[test]
fn same_resource_compares_kind_and_slot() {
    let a = buffer(0, TaskAccess::Read);
    let b = buffer(0, TaskAccess::Write);
    let c = buffer(1, TaskAccess::Write);
    let d = image(0, TaskAccess::Write);
    assert!(TaskResource::same_resource(&a, &b));
    assert!(!TaskResource::same_resource(&a, &c));
    assert!(!TaskResource::same_resource(&a, &d));
    assert!(TaskResource::same_resource(&d, &image(0, TaskAccess::Read)));
}

#[test]
fn get_access_returns_the_declared_mode() {
    assert!(matches!(buffer(3, TaskAccess::Read).get_access(), TaskAccess::Read));
    assert!(matches!(buffer(3, TaskAccess::Write).get_access(), TaskAccess::Write));
    assert!(matches!(image(1, TaskAccess::ReadWrite).get_access(), TaskAccess::ReadWrite));
}

#[test]
fn check_dependencies_hazard_table() {
    let w = task(vec![buffer(0, TaskAccess::Write)]);
    let r = task(vec![buffer(0, TaskAccess::Read)]);
    let rw = task(vec![buffer(0, TaskAccess::ReadWrite)]);
    let other = task(vec![buffer(1, TaskAccess::Write)]);
    // Write/Write, Write/Read, Read/Write and anything with ReadWrite
    // conflict; Read/Read does not; disjoint resources never do.
    assert!(TaskGraph::check_dependencies(&w, &w));
    assert!(TaskGraph::check_dependencies(&w, &r));
    assert!(TaskGraph::check_dependencies(&r, &w));
    assert!(TaskGraph::check_dependencies(&rw, &r));
    assert!(TaskGraph::check_dependencies(&r, &rw));
    assert!(TaskGraph::check_dependencies(&rw, &rw));
    assert!(!TaskGraph::check_dependencies(&r, &r));
    assert!(!TaskGraph::check_dependencies(&w, &other));
}

#[test]
fn read_read_independent_tasks_share_a_batch() {
    let tg = graph_of(vec![
        task(vec![buffer(0, TaskAccess::Read)]),
        task(vec![buffer(0, TaskAccess::Read)]),
    ]);
    let batches = tg.compile();
    assert_eq!(batches, vec![vec![0, 1]]);
}

#[test]
fn scenario_write_then_two_reads() {
    // T0 writes B; T1 and T2 read B: edges 0->1 and 0->2, batches [[0], [1, 2]].
    let tg = graph_of(vec![
        task(vec![buffer(0, TaskAccess::Write)]),
        task(vec![buffer(0, TaskAccess::Read)]),
        task(vec![buffer(0, TaskAccess::Read)]),
    ]);
    let adj = tg.create_adjacency_list();
    assert_eq!(adj, vec![vec![], vec![0], vec![0]]);
    let batches = tg.compile();
    assert_eq!(batches, vec![vec![0], vec![1, 2]]);
}

#[test]
fn scenario_redundant_edge_is_reduced() {
    // T0 writes B; T1 writes and reads B; T2 reads B.  The pairwise scan
    // records 0->1, 0->2 and 1->2; the edge 0->2 is implied by 0->1->2 and
    // is removed, leaving three sequential batches.
    let tg = graph_of(vec![
        task(vec![buffer(0, TaskAccess::Write)]),
        task(vec![buffer(0, TaskAccess::Write), buffer(0, TaskAccess::Read)]),
        task(vec![buffer(0, TaskAccess::Read)]),
    ]);
    let adj = tg.create_adjacency_list();
    assert_eq!(adj, vec![vec![], vec![0], vec![1]]);
    let batches = tg.compile();
    assert_eq!(batches, vec![vec![0], vec![1], vec![2]]);
}

#[test]
fn scenario_independent_tasks_one_batch() {
    // Four tasks touching disjoint resources land in a single batch.
    let tg = graph_of(vec![
        task(vec![buffer(0, TaskAccess::Write)]),
        task(vec![buffer(1, TaskAccess::Write)]),
        task(vec![image(0, TaskAccess::ReadWrite)]),
        task(vec![image(1, TaskAccess::Write)]),
    ]);
    let batches = tg.compile();
    assert_eq!(batches, vec![vec![0, 1, 2, 3]]);
}

#[test]
fn empty_task_list_compiles_to_no_batches() {
    let tg = TaskGraph::new();
    let batches = tg.compile();
    assert!(batches.is_empty());
}

#[test]
fn single_task_compiles_to_one_batch() {
    let tg = graph_of(vec![task(vec![buffer(0, TaskAccess::Write)])]);
    assert_eq!(tg.compile(), vec![vec![0]]);
}

#[test]
fn mixed_kinds_do_not_conflict_on_equal_slots() {
    // A buffer slot and an image slot with the same index are different
    // resources, so the two writers are independent.
    let tg = graph_of(vec![
        task(vec![buffer(5, TaskAccess::Write)]),
        task(vec![image(5, TaskAccess::Write)]),
    ]);
    assert_eq!(tg.compile(), vec![vec![0, 1]]);
}

fn reach_closure(n: usize, adj: &[Vec<usize>]) -> Vec<Vec<bool>> {
    // closure[u][v]: v reachable from u (reflexive).
    let mut closure = vec![vec![false; n]; n];
    for u in 0..n {
        let mut stack = vec![u];
        while let Some(x) = stack.pop() {
            if closure[u][x] {
                continue;
            }
            closure[u][x] = true;
            for &y in &adj[x] {
                stack.push(y);
            }
        }
    }
    closure
}

fn lcg(state: &mut u64) -> u64 {
    *state = state.wrapping_mul(6364136223846793005).wrapping_add(1442695040888963407);
    *state >> 33
}

#[test]
fn reduction_preserves_reachability_on_random_graphs() {
    let mut seed = 0xfeed_5eed_u64;
    for n in [1usize, 2, 5, 10, 25] {
        for _ in 0..8 {
            let mut adj: Vec<Vec<usize>> = Vec::new();
            for i in 0..n {
                let mut row = Vec::new();
                for j in 0..i {
                    if lcg(&mut seed) % 3 == 0 {
                        row.push(j);
                    }
                }
                adj.push(row);
            }
            let original = adj.clone();
            TaskGraph::transitive_reduction(&mut adj);
            // No more edges than before, and only edges that existed.
            let before: usize = original.iter().map(|r| r.len()).sum();
            let after: usize = adj.iter().map(|r| r.len()).sum();
            assert!(after <= before);
            for u in 0..n {
                for &v in &adj[u] {
                    assert!(original[u].contains(&v));
                }
            }
            // Identical reachability.
            assert_eq!(reach_closure(n, &original), reach_closure(n, &adj));
        }
    }
}

#[test]
fn batches_respect_edges_on_random_graphs() {
    let mut seed = 0xabcd_1234_u64;
    for n in [1usize, 3, 8, 20] {
        for _ in 0..8 {
            let mut adj: Vec<Vec<usize>> = Vec::new();
            for i in 0..n {
                let mut row = Vec::new();
                for j in 0..i {
                    if lcg(&mut seed) % 4 == 0 {
                        row.push(j);
                    }
                }
                adj.push(row);
            }
            let batches = TaskGraph::toplogical_sort(&adj);
            // Every task index appears exactly once; no batch is empty.
            let mut where_is = vec![None; n];
            for (b, batch) in batches.iter().enumerate() {
                assert!(!batch.is_empty());
                for &x in batch {
                    assert!(where_is[x].is_none());
                    where_is[x] = Some(b);
                }
            }
            for x in 0..n {
                assert!(where_is[x].is_some());
            }
            // A dependency sits in a strictly earlier batch than the task
            // that lists it.
            for i in 0..n {
                for &j in &adj[i] {
                    assert!(where_is[j].unwrap() < where_is[i].unwrap());
                }
            }
        }
    }
}

#[test]
fn compiled_plan_respects_every_hazard() {
    let mut seed = 0x5151_7171_u64;
    for _ in 0..10 {
        let n = 12usize;
        let mut tasks = Vec::new();
        for _ in 0..n {
            let mut resources = Vec::new();
            for slot in 0..3usize {
                match lcg(&mut seed) % 4 {
                    0 => resources.push(buffer(slot, TaskAccess::Read)),
                    1 => resources.push(buffer(slot, TaskAccess::Write)),
                    2 => resources.push(image(slot, TaskAccess::ReadWrite)),
                    _ => {},
                }
            }
            tasks.push(task(resources));
        }
        let conflicts = |a: &Task, b: &Task| TaskGraph::check_dependencies(a, b);
        let tg = graph_of(tasks.iter().map(|t| task(t.resources.clone())).collect());
        let batches = tg.compile();
        let mut where_is = vec![None; n];
        for (b, batch) in batches.iter().enumerate() {
            for &x in batch {
                assert!(where_is[x].is_none());
                where_is[x] = Some(b);
            }
        }
        for (i, ti) in tasks.iter().enumerate() {
            assert!(where_is[i].is_some());
            for (j, tj) in tasks.iter().enumerate().take(i) {
                if conflicts(tj, ti) {
                    assert!(where_is[j].unwrap() < where_is[i].unwrap());
                }
            }
        }
    }
}
