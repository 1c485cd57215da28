//! Hybrid text model: configuration, n-gram embeddings, recurrent state, rollback and snapshots.

pub mod checkpoint;
pub mod chunks;
pub mod compact;
pub mod config;
pub mod gated_delta;
pub mod laws;
pub mod layers;
pub mod moe;
pub mod ple;
pub mod ple_laws;
pub mod prefill;
pub mod primes;
pub mod restore;
pub mod rollback;
pub mod shards;
pub mod state;
pub mod state_laws;
pub mod state_names;
pub mod weights;
