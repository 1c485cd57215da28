//! Decision logic of a local inference runtime for Qwen checkpoints.
//!
//! Everything that can be decided on plain values lives here: speculative decoding rounds,
//! cache reconciliation, prompt snapshots, weight slot tables, sparse attention planning,
//! n-gram embeddings, image token expansion and rotary position bookkeeping. Tensor
//! arithmetic, sampling and file access belong to the caller, which performs what these
//! functions ask for and hands the outcome back.

pub mod binary32;
pub mod binary64;
pub mod binary64_bounds;
pub mod json;
pub mod qwen3_5_mtp;
pub mod qwen3_5_weights;
pub mod qwen3_next;
pub mod qwen3_next_laws;
pub mod qwen4;
pub mod qwen4_attention;
pub mod qwen_mrope;
pub mod qwen_mrope_state;
pub mod qwen_position;
pub mod qwen_rope_state;
pub mod qwen_vl;
pub mod qwen_vl_laws;
pub mod qwen_vl_position;
pub mod qwen_vl_position_laws;
pub mod qwen_vl_merge;
pub mod qwen_vl_processor;
pub mod qwen_vl_prompt;
pub mod qwen_vl_sizes;
pub mod specprefill;
pub mod specprefill_laws;
pub mod text;
pub mod tokens;
