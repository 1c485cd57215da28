//! Bundled multi-token-prediction drafter: walks, rounds, snapshots and statistics.

pub mod constrained_decode;
pub mod constraint;
pub mod decode;
pub mod draft;
pub mod emit;
pub mod laws;
pub mod stats;
pub mod prefill;
pub mod snapshot;
pub mod walk;
