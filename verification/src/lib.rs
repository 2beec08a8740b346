//! Sampling and aggregation of per-process GPU engine utilization.
//!
//! The library turns the line-oriented `key:value` accounting records that a
//! kernel driver exposes for each open device context into per-device
//! cumulative snapshots, and derives per-interval utilization rates from
//! consecutive snapshots.  All file reading, scheduling and display is left
//! to the surrounding program; every function here works on plain values and
//! carries a verified contract.

pub mod arith;
pub mod laws;
pub mod normalize;
pub mod parse;
pub mod process;
pub mod record;
pub mod reduce;
pub mod table;
pub mod usage;
pub mod snapshot;
