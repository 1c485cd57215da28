//! Sparse attention: block selection, plans and routing.

pub mod attention;
pub mod plan;
pub mod plan_laws;
pub mod qsa;
pub mod topk;
