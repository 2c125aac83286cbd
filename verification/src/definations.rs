//! Plain descriptor types used to declare devices, resources, commands and
//! pipelines to the surrounding graphics layer.
//!
//! These carry no behaviour of their own; they are the vocabulary that the
//! unverified recording layer translates into native API calls.

pub mod commands;
pub mod core_types;
pub mod gpu_resources;
pub mod pipelines;
