//! Attention layers: configuration, cache position and routing.

use vstd::prelude::*;
use crate::qwen3_next::{
    quantization_of,
    tensor_quant_params,
    KVCacheMode,
    RotaryRoute,
};
use crate::qwen4_attention::qsa::{Qwen4QsaIndexer, Qwen4QsaPlan};

pub use crate::qwen3_next::{Quantization, TensorQuantization};

verus! {

/// Configuration of the attention layers.
#[derive(Debug)]
pub struct Qwen4AttentionConfig {
    pub num_attention_heads: usize,
    pub num_key_value_heads: usize,
    pub head_dim: usize,
    /// Leading dimensions of a head that are rotated.
    pub rope_dims: i32,
    pub quantization: Option<Quantization>,
    pub mrope_section: Vec<i32>,
    pub indexer_n_heads: usize,
    pub indexer_kv_heads: usize,
    pub indexer_head_dim: usize,
    pub indexer_budget: usize,
    pub indexer_compress_ratio: usize,
    /// Leading dimensions of an indexer head that are rotated.
    pub indexer_rope_dims: i32,
}

impl Qwen4AttentionConfig {
    /// Group size and bits of a tensor.
    pub fn quant_params(&self, prefix: &str) -> (params: (i32, i32))
        ensures
            params == quantization_of(self.quantization, prefix@),
    {
        tensor_quant_params(&self.quantization, prefix)
    }
}

/// Position of a layer's cache.
#[derive(Debug, Clone, Copy, PartialEq, Eq, Structural)]
pub enum Qwen4LayerCache {
    Attention { offset: i32 },
    Linear { offset: i32 },
}

impl Qwen4LayerCache {
    pub open spec fn spec_offset(&self) -> i32 {
        match self {
            Qwen4LayerCache::Attention { offset } => *offset,
            Qwen4LayerCache::Linear { offset } => *offset,
        }
    }

    /// Tokens that the cache holds.
    pub fn offset(&self) -> (offset: i32)
        ensures
            offset == self.spec_offset(),
    {
        match self {
            Qwen4LayerCache::Attention { offset } => *offset,
            Qwen4LayerCache::Linear { offset } => *offset,
        }
    }
}

/// Position ids of three equal axes for a batch: `positions`, once per axis and sequence.
pub open spec fn repeated_positions(positions: Seq<i32>, times: nat) -> Seq<i32>
    decreases times,
{
    if times == 0 {
        Seq::empty()
    } else {
        repeated_positions(positions, (times - 1) as nat) + positions
    }
}

/// Every copy of the positions is the same: entries repeat with the number of positions.
pub proof fn positions_repeat(positions: Seq<i32>, times: nat, k: int)
    requires
        0 <= k < repeated_positions(positions, times).len(),
    ensures
        repeated_positions(positions, times).len() == times * positions.len(),
        positions.len() > 0,
        repeated_positions(positions, times)[k] == positions[k % positions.len() as int],
    decreases times,
{
    let length = positions.len() as int;
    let front = repeated_positions(positions, (times - 1) as nat);
    repeats_have_length(positions, times);
    repeats_have_length(positions, (times - 1) as nat);
    if k < front.len() {
        positions_repeat(positions, (times - 1) as nat, k);
    } else {
        vstd::arithmetic::div_mod::lemma_fundamental_div_mod_converse(
            k,
            length,
            times - 1,
            k - front.len(),
        );
    }
}

proof fn repeats_have_length(positions: Seq<i32>, times: nat)
    ensures
        repeated_positions(positions, times).len() == times * positions.len(),
    decreases times,
{
    let length = positions.len() as int;
    if times == 0 {
        assert(0 * length == 0) by (nonlinear_arith);
    } else {
        repeats_have_length(positions, (times - 1) as nat);
        assert((times - 1) * length + length == times * length) by (nonlinear_arith);
    }
}

/// How a sparse plan, the caller's mask and the length of a block lead to a route. Without a plan the
/// caller's mask decides, then causality: single rows need no mask. Index lists for a verified block
/// and masks of the plan apply whatever the caller says; other lists only where the caller has no
/// mask. Raw eight-bit storage is read only in the eight-bit mode.
pub proof fn routes_follow_plan_and_mask(
    plan: Option<Qwen4QsaPlan>,
    rows: i32,
    caller_masked: bool,
    mode: KVCacheMode,
    raw_fp8: bool,
)
    requires
        rows > 0,
    ensures
        ({
            let route = attention_route(plan, rows, caller_masked, mode, raw_fp8);
            let listed = plan is Some && plan->0 is VerifyIndices;
            let masked = plan is Some && plan->0 is Mask;
            let padded = plan is Some && plan->0 is PrefillIndices;
            let decoded = plan is Some && plan->0 is DecodeIndices;
            &&& route is VerifyRows <==> listed
            &&& route is PlanMask <==> masked
            &&& route is CallerMask <==> caller_masked && !listed && !masked
            &&& route is Causal <==> plan is None && !caller_masked && rows > 1
            &&& route is Unmasked <==> plan is None && !caller_masked && rows == 1
            &&& route is SelectedDecode <==> decoded && !caller_masked
            &&& route is SparsePrefillRawFp8 <==> padded && !caller_masked && raw_fp8 && mode
                == KVCacheMode::Fp8
            &&& route is SparsePrefill <==> padded && !caller_masked && !(raw_fp8 && mode
                == KVCacheMode::Fp8)
            &&& listed ==> route->rows == plan->0->VerifyIndices_0@.len() as usize
        }),
{
}

/// Position ids of three equal axes for a batch.
pub fn indexer_position_ids(positions: &[i32], batch: usize) -> (ids: Vec<i32>)
    requires
        3 * batch <= usize::MAX,
    ensures
        ids@ == repeated_positions(positions@, (3 * batch) as nat),
{
    let mut ids: Vec<i32> = Vec::new();
    let mut copy: usize = 0;
    while copy < 3 * batch
        invariant
            copy <= 3 * batch <= usize::MAX,
            ids@ == repeated_positions(positions@, copy as nat),
        decreases 3 * batch - copy,
    {
        crate::tokens::append_tokens(&mut ids, positions);
        copy = copy + 1;
    }
    ids
}

/// Which kernel a block goes through.
#[derive(Debug, Clone, Copy, PartialEq, Eq, Structural)]
pub enum Qwen4AttentionRoute {
    /// Append all rows, then attend row by row to the listed tokens.
    VerifyRows { rows: usize },
    /// Sparse prefill straight from eight-bit storage.
    SparsePrefillRawFp8,
    /// Sparse prefill over decoded storage.
    SparsePrefill,
    /// Attend to the listed tokens.
    SelectedDecode,
    /// Every row through its own prefix.
    Causal,
    /// Under the mask of the sparse plan.
    PlanMask,
    /// Under the caller's mask.
    CallerMask,
    /// A single row, to everything.
    Unmasked,
}

/// The route of a block of `rows` rows. Index lists for several rows always apply; other index
/// lists only without a mask of the caller, which otherwise decides; a mask of the plan replaces
/// the caller's.
pub open spec fn attention_route(
    plan: Option<Qwen4QsaPlan>,
    rows: i32,
    caller_masked: bool,
    mode: KVCacheMode,
    raw_fp8: bool,
) -> Qwen4AttentionRoute {
    let plain = if caller_masked {
        Qwen4AttentionRoute::CallerMask
    } else if rows > 1 {
        Qwen4AttentionRoute::Causal
    } else {
        Qwen4AttentionRoute::Unmasked
    };
    match plan {
        Some(Qwen4QsaPlan::VerifyIndices(listed)) => Qwen4AttentionRoute::VerifyRows {
            rows: listed@.len() as usize,
        },
        Some(Qwen4QsaPlan::Mask(_)) => Qwen4AttentionRoute::PlanMask,
        Some(Qwen4QsaPlan::PrefillIndices { .. }) => if caller_masked {
            plain
        } else if mode == KVCacheMode::Fp8 && raw_fp8 {
            Qwen4AttentionRoute::SparsePrefillRawFp8
        } else {
            Qwen4AttentionRoute::SparsePrefill
        },
        Some(Qwen4QsaPlan::DecodeIndices(_)) => if caller_masked {
            plain
        } else {
            Qwen4AttentionRoute::SelectedDecode
        },
        None => plain,
    }
}

/// How a block goes through an attention layer.
#[derive(Debug, Clone, Copy, PartialEq, Eq, Structural)]
pub struct Qwen4AttentionPlan {
    pub route: Qwen4AttentionRoute,
    pub rotary: RotaryRoute,
    /// Width of a query head; the learned gate takes the rest of the projection.
    pub gate_start: i32,
    pub gate_end: i32,
    pub capture_query: bool,
}

/// Shape of an attention layer.
#[derive(Debug, Clone, Copy, PartialEq, Eq, Structural)]
pub struct Qwen4Attention {
    pub num_heads: i32,
    pub num_kv_heads: i32,
    pub head_dim: i32,
    pub rope_dims: i32,
    pub indexer: Option<Qwen4QsaIndexer>,
}

impl Qwen4Attention {
    /// The layer that a configuration describes. Only centred checkpoints with indexer heads have
    /// a block indexer.
    pub fn from_config(config: &Qwen4AttentionConfig, centered_norm: bool) -> (attention: Self)
        requires
            config.num_attention_heads <= i32::MAX,
            config.num_key_value_heads <= i32::MAX,
            config.head_dim <= i32::MAX,
            centered_norm && config.indexer_n_heads > 0 ==> config.indexer_n_heads <= i32::MAX
                && config.indexer_kv_heads <= i32::MAX && config.indexer_head_dim <= i32::MAX && 0
                < config.indexer_compress_ratio <= i32::MAX && config.indexer_budget
                / config.indexer_compress_ratio <= i32::MAX,
        ensures
            attention.num_heads == config.num_attention_heads,
            attention.num_kv_heads == config.num_key_value_heads,
            attention.head_dim == config.head_dim,
            attention.rope_dims == config.rope_dims,
            match attention.indexer {
                Some(indexer) => {
                    &&& centered_norm && config.indexer_n_heads > 0
                    &&& indexer.wf()
                    &&& indexer.n_heads == config.indexer_n_heads
                    &&& indexer.kv_heads == config.indexer_kv_heads
                    &&& indexer.head_dim == config.indexer_head_dim
                    &&& indexer.compress_ratio == config.indexer_compress_ratio
                    &&& indexer.block_topk == config.indexer_budget / config.indexer_compress_ratio
                    &&& indexer.rope_dims == config.indexer_rope_dims
                },
                None => !(centered_norm && config.indexer_n_heads > 0),
            },
    {
        let indexer: Option<Qwen4QsaIndexer> = if centered_norm && config.indexer_n_heads > 0 {
            Some(
                Qwen4QsaIndexer::new(
                    config.indexer_n_heads as i32,
                    config.indexer_kv_heads as i32,
                    config.indexer_head_dim as i32,
                    config.indexer_budget,
                    config.indexer_compress_ratio,
                    config.indexer_rope_dims,
                ),
            )
        } else {
            None
        };
        Qwen4Attention {
            num_heads: config.num_attention_heads as i32,
            num_kv_heads: config.num_key_value_heads as i32,
            head_dim: config.head_dim as i32,
            rope_dims: config.rope_dims,
            indexer,
        }
    }

    /// Plans a pass of `rows` rows after the sparse plan is known, and moves the cache's offset
    /// past them.
    pub fn forward_impl(
        &self,
        plan: &Option<Qwen4QsaPlan>,
        rows: i32,
        query_width: i32,
        cache_offset: &mut i32,
        mode: KVCacheMode,
        raw_fp8: bool,
        caller_masked: bool,
        has_position_ids: bool,
        capture_query: bool,
    ) -> (pass: Qwen4AttentionPlan)
        requires
            rows > 0,
            0 <= *old(cache_offset),
            *old(cache_offset) + rows <= i32::MAX,
        ensures
            *final(cache_offset) == *old(cache_offset) + rows,
            pass == (Qwen4AttentionPlan {
                route: attention_route(*plan, rows, caller_masked, mode, raw_fp8),
                rotary: if has_position_ids {
                    RotaryRoute::PositionIds { rotated: self.rope_dims, head_dim: self.head_dim }
                } else {
                    RotaryRoute::Offset { offset: *old(cache_offset) }
                },
                gate_start: self.head_dim,
                gate_end: query_width,
                capture_query,
            }),
    {
        let plain: Qwen4AttentionRoute = if caller_masked {
            Qwen4AttentionRoute::CallerMask
        } else if rows > 1 {
            Qwen4AttentionRoute::Causal
        } else {
            Qwen4AttentionRoute::Unmasked
        };
        let route: Qwen4AttentionRoute = match plan {
            Some(Qwen4QsaPlan::VerifyIndices(listed)) => Qwen4AttentionRoute::VerifyRows {
                rows: listed.len(),
            },
            Some(Qwen4QsaPlan::Mask(_)) => Qwen4AttentionRoute::PlanMask,
            Some(Qwen4QsaPlan::PrefillIndices { .. }) => if caller_masked {
                plain
            } else if mode == KVCacheMode::Fp8 && raw_fp8 {
                Qwen4AttentionRoute::SparsePrefillRawFp8
            } else {
                Qwen4AttentionRoute::SparsePrefill
            },
            Some(Qwen4QsaPlan::DecodeIndices(_)) => if caller_masked {
                plain
            } else {
                Qwen4AttentionRoute::SelectedDecode
            },
            None => plain,
        };
        let rotary: RotaryRoute = if has_position_ids {
            RotaryRoute::PositionIds { rotated: self.rope_dims, head_dim: self.head_dim }
        } else {
            RotaryRoute::Offset { offset: *cache_offset }
        };
        *cache_offset = *cache_offset + rows;
        Qwen4AttentionPlan {
            route,
            rotary,
            gate_start: self.head_dim,
            gate_end: query_width,
            capture_query,
        }
    }
}

} // verus!
