//! A GPU resource/identity manager and a declarative task scheduler.
//!
//! Two components, built bottom-up:
//!
//! - [`gpu_resources`]: a paged arena that owns resource metadata and issues
//!   opaque, generation-stamped 64-bit handles.  A handle stays unique among
//!   all currently live handles, and a deleted handle is rejected forever
//!   afterwards, even once its slot has been reused.
//! - [`taskgraph`]: a task-dependency graph builder that turns an ordered list
//!   of declared resource accesses into a hazard-respecting partial order,
//!   removes redundant edges (transitive reduction), and levels the result
//!   into parallel-executable batches.
//!
//! The remaining modules hold the plain descriptor types that callers use to
//! describe devices, images, samplers, pipelines and command recording to the
//! surrounding (unverified) graphics layer.

pub mod definations;
pub mod gpu_resources;
pub mod pool;
pub mod taskgraph;
