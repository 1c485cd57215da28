//! Weights of the pinned checkpoint pair: slot table, kernel allowlists, loading decisions.

pub mod laws;
pub mod slots;
pub mod source;
