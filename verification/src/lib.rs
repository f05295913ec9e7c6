//! Verified core of a PLC fuzzing sandbox: variable codecs over PLC state
//! snapshots, rollout batching, tick-level seeds and mutators, and the
//! progress metrics that steer the fuzzers.

pub mod cem;
pub mod metrics;
pub mod mutators;
pub mod names;
pub mod pipeline;
pub mod rollout;
pub mod table;
pub mod scoring;
pub mod vars;
