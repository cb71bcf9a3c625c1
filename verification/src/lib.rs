//! A verified core for a multi-party private benchmarking service.
//!
//! An analyst defines KPI formulas; companies submit private numeric
//! input vectors; a central server lowers the formulas into flat lists
//! of atomic operations, orders them topologically, evaluates them per
//! company, and aggregates cross-company statistics.
//!
//! Scalars are carried as IEEE 754 double-precision bit patterns
//! (`u64`).  Everything that can be decided exactly on bit patterns —
//! shapes, arities, dependency order, zero tests, the total order used
//! for minima, maxima and ranking — is verified here.  The arithmetic
//! itself (addition, division, powers, ...) is supplied by the caller
//! as a kernel closure, so every structural guarantee holds for any
//! kernel the embedding chooses.

pub mod algorithm;
pub mod api;
pub mod atomic;
pub mod benchmark;
pub mod bits;
pub mod client;
pub mod config;
pub mod entity;
pub mod error;
pub mod formula;
pub mod input;
pub mod laws;
pub mod message;
pub mod operation;
pub mod output;
pub mod resolved;
pub mod server_util;
pub mod stats;
pub mod strutil;
pub mod variable;
