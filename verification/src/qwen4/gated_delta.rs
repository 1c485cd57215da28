//! Recurrent layers: geometry, chunking and state decisions.

use vstd::prelude::*;
use crate::qwen3_next::{covers_rows, stackable, LegacyProjection, RowRange};
use crate::qwen4::chunks::{chunk_ranges, microchunk_ranges, QWEN4_PREFILL_MICROCHUNK_TOKENS};

verus! {

/// Sizes of a recurrent layer.
#[derive(Debug, Clone, Copy, PartialEq, Eq, Structural)]
pub struct Qwen4GatedDeltaNet {
    pub num_v_heads: usize,
    pub num_k_heads: usize,
    pub head_k_dim: usize,
    pub head_v_dim: usize,
    pub key_dim: usize,
    pub value_dim: usize,
    pub conv_kernel_size: usize,
    pub conv_dim: usize,
    /// Whether the output gate is a sigmoid.
    pub sigmoid_gate: bool,
}

/// A captured chunk of a recurrent layer, or how a chunk is run.
#[derive(Debug, Clone, Copy, PartialEq, Eq, Structural)]
pub struct GdnChunk {
    pub rows: RowRange,
    /// Whether running the chunk moves the cache's offset; otherwise it is moved once at the end.
    pub advance_cache: bool,
}

/// How a chunk goes through a recurrent layer.
#[derive(Debug, Clone, Copy, PartialEq, Eq, Structural)]
pub struct GdnChunkPlan {
    /// Columns of the convolution's output.
    pub query_columns: RowRange,
    pub key_columns: RowRange,
    pub value_columns: RowRange,
    /// Columns of a stacked auxiliary projection: output gate, update and decay.
    pub z_columns: RowRange,
    pub b_columns: RowRange,
    pub a_columns: RowRange,
    /// Whether the cached convolution state is used; otherwise it starts from zeros.
    pub reuse_conv_state: bool,
    /// Whether the cached recurrent state is used.
    pub reuse_state: bool,
    /// Whether the mask is applied.
    pub use_mask: bool,
    /// Rows of the convolution's input that become its next state.
    pub conv_tail: RowRange,
}

impl Qwen4GatedDeltaNet {
    pub open spec fn wf(&self) -> bool {
        &&& self.key_dim == self.head_k_dim * self.num_k_heads
        &&& self.value_dim == self.head_v_dim * self.num_v_heads
        &&& self.conv_dim == 2 * self.key_dim + self.value_dim
        &&& self.conv_dim <= i32::MAX
        &&& self.value_dim + 2 * self.num_v_heads <= i32::MAX
        &&& 1 <= self.conv_kernel_size <= i32::MAX
    }

    /// The layer of the given sizes.
    pub fn from_config(
        num_v_heads: usize,
        num_k_heads: usize,
        head_k_dim: usize,
        head_v_dim: usize,
        conv_kernel_size: usize,
        sigmoid_gate: bool,
    ) -> (layer: Self)
        requires
            2 * (head_k_dim * num_k_heads) + head_v_dim * num_v_heads <= i32::MAX,
            head_v_dim * num_v_heads + 2 * num_v_heads <= i32::MAX,
            1 <= conv_kernel_size <= i32::MAX,
        ensures
            layer.wf(),
            layer.num_v_heads == num_v_heads,
            layer.num_k_heads == num_k_heads,
            layer.head_k_dim == head_k_dim,
            layer.head_v_dim == head_v_dim,
            layer.conv_kernel_size == conv_kernel_size,
            layer.sigmoid_gate == sigmoid_gate,
    {
        proof {
            assert(head_k_dim * num_k_heads >= 0) by (nonlinear_arith)
                requires
                    head_k_dim >= 0,
                    num_k_heads >= 0,
            ;
            assert(head_v_dim * num_v_heads >= 0) by (nonlinear_arith)
                requires
                    head_v_dim >= 0,
                    num_v_heads >= 0,
            ;
        }
        let key_dim: usize = head_k_dim * num_k_heads;
        let value_dim: usize = head_v_dim * num_v_heads;
        Qwen4GatedDeltaNet {
            num_v_heads,
            num_k_heads,
            head_k_dim,
            head_v_dim,
            key_dim,
            value_dim,
            conv_kernel_size,
            conv_dim: key_dim * 2 + value_dim,
            sigmoid_gate,
        }
    }

    /// Cuts a pass into chunks and moves the cache's offset past it. Short passes and passes that
    /// are captured for a rollback go through at once.
    pub fn forward_hidden_internal(&self, sequence: i32, capturing: bool, cache_offset: &mut i32) -> (chunks:
        Vec<GdnChunk>)
        requires
            sequence > 0,
            0 <= *old(cache_offset),
            *old(cache_offset) + sequence <= i32::MAX,
        ensures
            *final(cache_offset) == *old(cache_offset) + sequence,
            chunks@ == (if sequence <= QWEN4_PREFILL_MICROCHUNK_TOKENS || capturing {
                seq![GdnChunk { rows: RowRange { start: 0, end: sequence }, advance_cache: true }]
            } else {
                chunk_ranges(
                    sequence as int,
                    QWEN4_PREFILL_MICROCHUNK_TOKENS as int,
                ).map_values(|rows: RowRange| GdnChunk { rows, advance_cache: false })
            }),
            covers_rows(chunks@.map_values(|chunk: GdnChunk| chunk.rows), sequence as int),
    {
        let mut chunks: Vec<GdnChunk> = Vec::new();
        *cache_offset = *cache_offset + sequence;
        if sequence <= QWEN4_PREFILL_MICROCHUNK_TOKENS || capturing {
            let all = RowRange { start: 0, end: sequence };
            chunks.push(GdnChunk { rows: all, advance_cache: true });
            proof {
                assert(chunks@ =~= seq![GdnChunk { rows: all, advance_cache: true }]);
                let rows = chunks@.map_values(|chunk: GdnChunk| chunk.rows);
                assert(rows =~= seq![all]);
            }
            return chunks;
        }
        let ranges = microchunk_ranges(sequence, QWEN4_PREFILL_MICROCHUNK_TOKENS);
        let mut index: usize = 0;
        while index < ranges.len()
            invariant
                index <= ranges@.len(),
                chunks@.len() == index,
                forall|i: int|
                    0 <= i < index ==> #[trigger] chunks@[i] == (GdnChunk {
                        rows: ranges@[i],
                        advance_cache: false,
                    }),
            decreases ranges@.len() - index,
        {
            chunks.push(GdnChunk { rows: ranges[index], advance_cache: false });
            index = index + 1;
        }
        proof {
            assert(chunks@ =~= ranges@.map_values(
                |rows: RowRange| GdnChunk { rows, advance_cache: false },
            ));
            assert(chunks@.map_values(|chunk: GdnChunk| chunk.rows) =~= ranges@);
        }
        chunks
    }

    /// Plans one chunk of `rows` rows of `batch` sequences. State and mask of another batch size
    /// are left aside.
    pub fn forward_hidden_chunk(
        &self,
        batch: i32,
        rows: i32,
        conv_state_batch: Option<i32>,
        state_batch: Option<i32>,
        mask_batch: Option<i32>,
    ) -> (plan: GdnChunkPlan)
        requires
            self.wf(),
            0 < rows,
            self.conv_kernel_size - 1 + rows <= i32::MAX,
        ensures
            plan.query_columns == (RowRange { start: 0, end: self.key_dim as i32 }),
            plan.key_columns == (RowRange {
                start: self.key_dim as i32,
                end: (2 * self.key_dim) as i32,
            }),
            plan.value_columns == (RowRange {
                start: (2 * self.key_dim) as i32,
                end: self.conv_dim as i32,
            }),
            plan.z_columns == (RowRange { start: 0, end: self.value_dim as i32 }),
            plan.b_columns == (RowRange {
                start: self.value_dim as i32,
                end: (self.value_dim + self.num_v_heads) as i32,
            }),
            plan.a_columns == (RowRange {
                start: (self.value_dim + self.num_v_heads) as i32,
                end: (self.value_dim + 2 * self.num_v_heads) as i32,
            }),
            plan.reuse_conv_state == (conv_state_batch == Some(batch)),
            plan.reuse_state == (state_batch == Some(batch)),
            plan.use_mask == (mask_batch == Some(batch)),
            plan.conv_tail == (RowRange {
                start: rows,
                end: (self.conv_kernel_size - 1 + rows) as i32,
            }),
    {
        let key_dim: i32 = self.key_dim as i32;
        let value_dim: i32 = self.value_dim as i32;
        let heads: i32 = self.num_v_heads as i32;
        let keep: i32 = self.conv_kernel_size as i32 - 1;
        GdnChunkPlan {
            query_columns: RowRange { start: 0, end: key_dim },
            key_columns: RowRange { start: key_dim, end: 2 * key_dim },
            value_columns: RowRange { start: 2 * key_dim, end: self.conv_dim as i32 },
            z_columns: RowRange { start: 0, end: value_dim },
            b_columns: RowRange { start: value_dim, end: value_dim + heads },
            a_columns: RowRange { start: value_dim + heads, end: value_dim + heads + heads },
            reuse_conv_state: same_batch(conv_state_batch, batch),
            reuse_state: same_batch(state_batch, batch),
            use_mask: same_batch(mask_batch, batch),
            conv_tail: RowRange { start: keep + rows - keep, end: keep + rows },
        }
    }

    /// Queries, keys and values take the convolution's output apart without rest, and their widths
    /// are those of their heads.
    pub proof fn columns_are_complete(&self)
        requires
            self.wf(),
        ensures
            self.key_dim == self.head_k_dim * self.num_k_heads,
            self.conv_dim - 2 * self.key_dim == self.head_v_dim * self.num_v_heads,
    {
    }
}

/// Whether carried state is there and of this batch size: only then is it used again.
pub fn same_batch(found: Option<i32>, batch: i32) -> (same: bool)
    ensures
        same == (found == Some(batch)),
{
    match found {
        Some(found) => found == batch,
        None => false,
    }
}

/// Whether output gate, update and decay can be run as one projection: pairwise stackable.
pub fn fuse_gated_aux_projections(
    z: Option<LegacyProjection>,
    b: Option<LegacyProjection>,
    a: Option<LegacyProjection>,
) -> (fused: bool)
    ensures
        fused == (z is Some && b is Some && a is Some && stackable(z->0, b->0) && stackable(
            z->0,
            a->0,
        )),
{
    match (z, b, a) {
        (Some(z), Some(b), Some(a)) => !z.has_linear_bias && !b.has_linear_bias
            && !a.has_linear_bias && z.group_size == b.group_size && z.group_size == a.group_size
            && z.bits == b.bits && z.bits == a.bits && z.mode == b.mode && z.mode == a.mode
            && !z.has_global_scale && !b.has_global_scale && !a.has_global_scale
            && z.has_group_biases && b.has_group_biases && a.has_group_biases,
        _ => false,
    }
}

} // verus!
