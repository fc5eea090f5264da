//! A testbench for range-based set reconciliation protocols: a deterministic
//! discrete-event simulator drives a population of parties that post objects
//! and periodically synchronize their object stores, recording a trace of
//! per-event accounting.

pub mod events;
pub mod experiments;
pub mod objects;
pub mod party;
pub mod protocol;
pub mod record;
pub mod rng;
pub mod sim;
pub mod stats;
pub mod triggers;
pub mod time;
