//! The scheduling and lifecycle core of a two-tier compute-serving fabric.
//!
//! A node orchestrator owns a pool of worker processes with declared CPU,
//! GPU and memory capabilities, selects a worker per request under live
//! allocation accounting, speaks a length-framed binary protocol to each
//! worker over its own socket, and rotates workers out on memory, task-count
//! and age thresholds without touching in-flight work. A gateway in front
//! keeps a pool of such orchestrators with periodic capacity samples, health
//! tracking and least-utilized selection.
//!
//! Resource quantities are integer milli-units throughout, so the
//! accounting is exact and its laws are proved: allocations never exceed
//! capabilities, a completed request restores the allocation precisely, GPU
//! work never lands on a CPU-only worker, round-robin selection is fair, the
//! wire codec and the JSON conversion both round-trip, and recycling keeps a
//! worker's identity and GPU binding.
//!
//! Everything here is decision and data; sockets, processes, clocks and
//! files belong to the binaries built on top, which feed observations in and
//! carry the decided actions out.

pub mod asgi;
pub mod backend;
pub mod codec;
pub mod config;
pub mod dispatch;
pub mod errors;
pub mod gateway;
pub mod ids;
pub mod json;
pub mod memory;
pub mod openapi;
pub mod orchestrator;
pub mod protocol;
pub mod resources;
pub mod text;
pub mod worker;
