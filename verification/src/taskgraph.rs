//! The declarative task scheduler.
//!
//! Callers declare an ordered list of tasks, each naming the resources it
//! reads and writes.  [`task_graph::TaskGraph::compile`] infers the hazards
//! between them, reduces the dependency edges to a minimal set with the same
//! reachability, and levels the result into batches whose members may run
//! concurrently.

pub mod definations;
pub mod graph;
pub mod task_graph;
