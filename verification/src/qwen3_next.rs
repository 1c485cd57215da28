//! Dense attention, feed-forward, quantisation and cache decisions shared by target and drafter.

use vstd::prelude::*;
use crate::qwen3_5_weights::slots::{role_prefix, ModelRole};
use crate::qwen3_5_weights::source::Qwen35LinearKind;
use crate::text::{decimal, decimal_text, normalize, normalized, same_text};

verus! {

/// Quantisation of one tensor.
#[derive(Debug, Clone, Copy, PartialEq, Eq, Structural)]
pub struct TensorQuantization {
    pub group_size: i32,
    pub bits: i32,
}

/// Quantisation of a checkpoint: a default, and overrides by tensor name.
#[derive(Debug)]
pub struct Quantization {
    pub group_size: i32,
    pub bits: i32,
    pub mode: String,
    pub overrides: Vec<(String, TensorQuantization)>,
}

/// What an override list holds, name by name. A later entry of the same name replaces an earlier
/// one.
pub open spec fn override_map(entries: Seq<(String, TensorQuantization)>) -> Map<
    Seq<char>,
    TensorQuantization,
>
    decreases entries.len(),
{
    if entries.len() == 0 {
        Map::empty()
    } else {
        override_map(entries.drop_last()).insert(entries.last().0@, entries.last().1)
    }
}

impl Quantization {
    pub open spec fn override_for(&self, name: Seq<char>) -> Option<TensorQuantization> {
        if override_map(self.overrides@).dom().contains(name) {
            Some(override_map(self.overrides@)[name])
        } else {
            None
        }
    }

    /// The override of a tensor, if it has one.
    pub fn get_override(&self, name: &str) -> (found: Option<TensorQuantization>)
        ensures
            found == self.override_for(name@),
    {
        let mut index: usize = self.overrides.len();
        assert(self.overrides@.take(index as int) == self.overrides@);
        while index > 0
            invariant
                index <= self.overrides@.len(),
                override_map(self.overrides@.take(index as int)).dom().contains(name@)
                    == override_map(self.overrides@).dom().contains(name@),
                override_map(self.overrides@).dom().contains(name@) ==> override_map(
                    self.overrides@.take(index as int),
                )[name@] == override_map(self.overrides@)[name@],
            decreases index,
        {
            let ghost whole = self.overrides@.take(index as int);
            assert(whole.drop_last() == self.overrides@.take(index - 1));
            assert(whole.last() == self.overrides@[index - 1]);
            index = index - 1;
            if same_text(self.overrides[index].0.as_str(), name) {
                return Some(self.overrides[index].1);
            }
        }
        None
    }
}

/// Configuration of the dense layers.
#[derive(Debug)]
pub struct Qwen3NextConfig {
    pub num_attention_heads: usize,
    pub num_key_value_heads: usize,
    pub head_dim: usize,
    /// Leading dimensions of a head that are rotated.
    pub rope_dims: i32,
    pub quantization: Option<Quantization>,
    pub mrope_section: Vec<i32>,
}

/// The name of a tensor inside a checkpoint that nests the language model.
pub open spec fn nested_name(prefix: Seq<char>) -> Seq<char> {
    "language_model."@ + prefix
}

/// Group size and bits of the tensor `prefix`: its own override, else the override of its nested
/// name, else the checkpoint's default. An unquantised checkpoint counts as groups of sixty-four
/// with four bits.
pub open spec fn quantization_of(quantization: Option<Quantization>, prefix: Seq<char>) -> (i32, i32) {
    match quantization {
        None => (64, 4),
        Some(quantization) => match quantization.override_for(prefix) {
            Some(own) => (own.group_size, own.bits),
            None => match quantization.override_for(nested_name(prefix)) {
                Some(nested) => (nested.group_size, nested.bits),
                None => (quantization.group_size, quantization.bits),
            },
        },
    }
}

/// Group size and bits of a tensor.
pub fn tensor_quant_params(quantization: &Option<Quantization>, prefix: &str) -> (params: (i32, i32))
    ensures
        params == quantization_of(*quantization, prefix@),
{
    let quantization: &Quantization = match quantization {
        None => {
            return (64, 4);
        },
        Some(quantization) => quantization,
    };
    if let Some(own) = quantization.get_override(prefix) {
        return (own.group_size, own.bits);
    }
    let mut nested: String = "language_model.".to_owned();
    nested.append(prefix);
    match quantization.get_override(nested.as_str()) {
        Some(own) => (own.group_size, own.bits),
        None => (quantization.group_size, quantization.bits),
    }
}

impl Qwen3NextConfig {
    /// Group size and bits of a tensor.
    pub fn quant_params(&self, prefix: &str) -> (params: (i32, i32))
        ensures
            params == quantization_of(self.quantization, prefix@),
    {
        tensor_quant_params(&self.quantization, prefix)
    }
}

/// Position of a layer's cache.
#[derive(Debug, Clone, Copy, PartialEq, Eq, Structural)]
pub enum Qwen3NextCache {
    Attention { offset: i32 },
    Linear { offset: i32 },
}

impl Qwen3NextCache {
    pub open spec fn spec_offset(&self) -> i32 {
        match self {
            Qwen3NextCache::Attention { offset } => *offset,
            Qwen3NextCache::Linear { offset } => *offset,
        }
    }

    /// Tokens that the cache holds.
    pub fn offset(&self) -> (offset: i32)
        ensures
            offset == self.spec_offset(),
    {
        match self {
            Qwen3NextCache::Attention { offset } => *offset,
            Qwen3NextCache::Linear { offset } => *offset,
        }
    }
}

/// Rows from which on half-precision attention pays off.
pub const QWEN38_HIGH_M_FP16_ATTENTION_MIN_ROWS: i32 = 128;

/// Whether a setting says yes.
pub open spec fn says_yes(value: Seq<char>) -> bool {
    let plain = normalized(value);
    plain == seq!['1'] || plain == seq!['t', 'r', 'u', 'e'] || plain == seq!['o', 'n'] || plain
        == seq!['y', 'e', 's']
}

/// Whether half-precision attention is asked for: only when the setting says yes, in any case and
/// with any white space around it.
pub fn parse_qwen38_high_m_fp16_attention(value: Option<&str>) -> (requested: bool)
    ensures
        requested == (value is Some && says_yes(value->0@)),
{
    let value: &str = match value {
        Some(value) => value,
        None => {
            return false;
        },
    };
    let plain = normalize(value);
    proof {
        let one = seq!['1'];
        let on = seq!['o', 'n'];
        let yes = seq!['y', 'e', 's'];
        let truth = seq!['t', 'r', 'u', 'e'];
        assert(one.len() == 1 && one[0] == '1');
        assert(on.len() == 2 && on[0] == 'o' && on[1] == 'n');
        assert(yes.len() == 3 && yes[0] == 'y' && yes[1] == 'e' && yes[2] == 's');
        assert(truth.len() == 4 && truth[0] == 't' && truth[1] == 'r' && truth[2] == 'u' && truth[3]
            == 'e');
    }
    let length: usize = plain.len();
    if length == 1 && plain[0] == '1' {
        assert(plain@ == seq!['1']);
        true
    } else if length == 2 && plain[0] == 'o' && plain[1] == 'n' {
        assert(plain@ == seq!['o', 'n']);
        true
    } else if length == 3 && plain[0] == 'y' && plain[1] == 'e' && plain[2] == 's' {
        assert(plain@ == seq!['y', 'e', 's']);
        true
    } else if length == 4 && plain[0] == 't' && plain[1] == 'r' && plain[2] == 'u' && plain[3]
        == 'e' {
        assert(plain@ == seq!['t', 'r', 'u', 'e']);
        true
    } else {
        false
    }
}

/// Whether attention runs in half precision: only on the pinned target, when asked for, and with
/// enough rows. A row count that does not fit counts as not enough.
pub fn use_qwen38_high_m_fp16_attention(
    pinned_qwen38_target: bool,
    enabled: bool,
    batch_size: i32,
    sequence_length: i32,
) -> (half: bool)
    ensures
        half == (pinned_qwen38_target && enabled && QWEN38_HIGH_M_FP16_ATTENTION_MIN_ROWS
            <= batch_size * sequence_length <= i32::MAX),
{
    if !pinned_qwen38_target || !enabled {
        return false;
    }
    match batch_size.checked_mul(sequence_length) {
        Some(rows) => rows >= QWEN38_HIGH_M_FP16_ATTENTION_MIN_ROWS,
        None => false,
    }
}

/// How a cache stores keys and values.
#[derive(Debug, Clone, Copy, PartialEq, Eq, Structural)]
pub enum KVCacheMode {
    Fp16,
    Fp8,
    Int8,
    Turbo4,
}

/// Rows of a block, from `start` up to, excluding, `end`.
#[derive(Debug, Clone, Copy, PartialEq, Eq, Structural)]
pub struct RowRange {
    pub start: i32,
    pub end: i32,
}

/// Whether ranges cover the rows `0..rows` in order, without gap or overlap.
pub open spec fn covers_rows(ranges: Seq<RowRange>, rows: int) -> bool {
    &&& ranges.len() > 0
    &&& ranges[0].start == 0
    &&& ranges.last().end == rows
    &&& forall|i: int| 0 <= i < ranges.len() ==> (#[trigger] ranges[i]).start < ranges[i].end
    &&& forall|i: int, j: int|
        0 <= i && j == i + 1 && j < ranges.len() ==> (#[trigger] ranges[i]).end == (
        #[trigger] ranges[j]).start
}

/// The rows that an output projection is run on at a time. Some representations are not exact on
/// four rows, so that those are run as three and one.
pub fn project_output_ranges(rank: usize, rows: i32, projection: Qwen35LinearKind) -> (ranges: Vec<
    RowRange,
>)
    requires
        rows > 0,
    ensures
        covers_rows(ranges@, rows as int),
        ranges@ == (if rank == 3 && rows == 4 && (projection == Qwen35LinearKind::Q6Dual
            || projection == Qwen35LinearKind::Gguf) {
            seq![RowRange { start: 0, end: 3 }, RowRange { start: 3, end: 4 }]
        } else {
            seq![RowRange { start: 0, end: rows }]
        }),
{
    let mut ranges: Vec<RowRange> = Vec::new();
    if rank == 3 && rows == 4 && projection.needs_m4_exact_split() {
        ranges.push(RowRange { start: 0, end: 3 });
        ranges.push(RowRange { start: 3, end: 4 });
        assert(ranges@ == seq![RowRange { start: 0, end: 3 }, RowRange { start: 3, end: 4 }]);
    } else {
        ranges.push(RowRange { start: 0, end: rows });
        assert(ranges@ == seq![RowRange { start: 0, end: rows }]);
    }
    ranges
}

/// Which kernel attends, and how the new rows reach the cache.
#[derive(Debug, Clone, Copy, PartialEq, Eq, Structural)]
pub enum AttentionKernel {
    /// Packed cache, every row attends through its own prefix.
    Turbo4Causal,
    /// Packed cache, under the given mask or none.
    Turbo4,
    /// Causal over the cached keys, every row through its own prefix.
    Causal,
    /// Under the given mask or none.
    Plain,
}

/// One pass of attention.
#[derive(Debug, Clone, Copy, PartialEq, Eq, Structural)]
pub struct AttentionSegment {
    /// Rows that are appended to the cache, then attend.
    pub rows: RowRange,
    pub kernel: AttentionKernel,
}

/// How rotary positions are applied.
#[derive(Debug, Clone, Copy, PartialEq, Eq, Structural)]
pub enum RotaryRoute {
    /// From explicit positions; only the leading dimensions of a head are rotated.
    PositionIds { rotated: i32, head_dim: i32 },
    /// From the cache's offset on.
    Offset { offset: i32 },
}

/// How a block goes through an attention layer.
#[derive(Debug)]
pub struct AttentionPlan {
    /// Width of a query head; the learned gate takes the rest of the projection.
    pub gate_start: i32,
    pub gate_end: i32,
    pub rotary: RotaryRoute,
    pub capture_query: bool,
    /// Whether queries, keys and values are run in half precision and the result brought back.
    pub half_precision: bool,
    pub segments: Vec<AttentionSegment>,
}

/// Shape and features of an attention layer.
#[derive(Debug, Clone, Copy, PartialEq, Eq, Structural)]
pub struct Qwen3NextAttention {
    pub num_heads: i32,
    pub num_kv_heads: i32,
    pub head_dim: i32,
    pub rope_dims: i32,
    pub pinned_qwen38_target: bool,
    pub high_m_fp16_attention: bool,
}

/// The passes that a block of `rows` rows takes. Without a mask, rows of a longer block attend
/// causally. On a plain cache four rows are run as three and one, because a native pass over four
/// would round differently from decoding the rows one at a time.
pub open spec fn attention_segments(rows: i32, mode: KVCacheMode, masked: bool) -> Seq<
    AttentionSegment,
> {
    let all = RowRange { start: 0, end: rows };
    if mode == KVCacheMode::Turbo4 {
        seq![
            AttentionSegment {
                rows: all,
                kernel: if rows > 1 && !masked {
                    AttentionKernel::Turbo4Causal
                } else {
                    AttentionKernel::Turbo4
                },
            },
        ]
    } else if rows == 4 && !masked {
        seq![
            AttentionSegment {
                rows: RowRange { start: 0, end: 3 },
                kernel: AttentionKernel::Causal,
            },
            AttentionSegment {
                rows: RowRange { start: 3, end: 4 },
                kernel: AttentionKernel::Plain,
            },
        ]
    } else {
        seq![
            AttentionSegment {
                rows: all,
                kernel: if rows > 1 && !masked {
                    AttentionKernel::Causal
                } else {
                    AttentionKernel::Plain
                },
            },
        ]
    }
}

impl Qwen3NextAttention {
    /// Plans a pass of `rows` rows of `batch` sequences and moves the cache's offset past them.
    pub fn forward_impl(
        &self,
        batch: i32,
        rows: i32,
        query_width: i32,
        cache_offset: &mut i32,
        mode: KVCacheMode,
        masked: bool,
        has_position_ids: bool,
        capture_query: bool,
    ) -> (plan: AttentionPlan)
        requires
            rows > 0,
            0 <= *old(cache_offset),
            *old(cache_offset) + rows <= i32::MAX,
        ensures
            *final(cache_offset) == *old(cache_offset) + rows,
            plan.gate_start == self.head_dim,
            plan.gate_end == query_width,
            plan.rotary == (if has_position_ids {
                RotaryRoute::PositionIds { rotated: self.rope_dims, head_dim: self.head_dim }
            } else {
                RotaryRoute::Offset { offset: *old(cache_offset) }
            }),
            plan.capture_query == capture_query,
            plan.half_precision == (self.pinned_qwen38_target && self.high_m_fp16_attention
                && QWEN38_HIGH_M_FP16_ATTENTION_MIN_ROWS <= batch * rows <= i32::MAX),
            plan.segments@ == attention_segments(rows, mode, masked),
    {
        let rotary: RotaryRoute = if has_position_ids {
            RotaryRoute::PositionIds { rotated: self.rope_dims, head_dim: self.head_dim }
        } else {
            RotaryRoute::Offset { offset: *cache_offset }
        };
        let half_precision = use_qwen38_high_m_fp16_attention(
            self.pinned_qwen38_target,
            self.high_m_fp16_attention,
            batch,
            rows,
        );
        let mut segments: Vec<AttentionSegment> = Vec::new();
        let all = RowRange { start: 0, end: rows };
        let causal = rows > 1 && !masked;
        if mode == KVCacheMode::Turbo4 {
            let kernel: AttentionKernel = if causal {
                AttentionKernel::Turbo4Causal
            } else {
                AttentionKernel::Turbo4
            };
            segments.push(AttentionSegment { rows: all, kernel });
        } else if rows == 4 && !masked {
            segments.push(
                AttentionSegment {
                    rows: RowRange { start: 0, end: 3 },
                    kernel: AttentionKernel::Causal,
                },
            );
            segments.push(
                AttentionSegment {
                    rows: RowRange { start: 3, end: 4 },
                    kernel: AttentionKernel::Plain,
                },
            );
        } else {
            let kernel: AttentionKernel = if causal {
                AttentionKernel::Causal
            } else {
                AttentionKernel::Plain
            };
            segments.push(AttentionSegment { rows: all, kernel });
        }
        assert(segments@ == attention_segments(rows, mode, masked));
        *cache_offset = *cache_offset + rows;
        AttentionPlan {
            gate_start: self.head_dim,
            gate_end: query_width,
            rotary,
            capture_query,
            half_precision,
            segments,
        }
    }
}

/// However a block is split, every row is appended and attends exactly once and in order.
pub proof fn attention_segments_cover_block(rows: i32, mode: KVCacheMode, masked: bool)
    requires
        rows > 0,
    ensures
        covers_rows(
            attention_segments(rows, mode, masked).map_values(|s: AttentionSegment| s.rows),
            rows as int,
        ),
        forall|i: int|
            0 <= i < attention_segments(rows, mode, masked).len() && !masked && (
            #[trigger] attention_segments(rows, mode, masked)[i]).rows.end - attention_segments(
                rows,
                mode,
                masked,
            )[i].rows.start > 1 ==> attention_segments(rows, mode, masked)[i].kernel
                == AttentionKernel::Causal || attention_segments(rows, mode, masked)[i].kernel
                == AttentionKernel::Turbo4Causal,
{
}

/// The name of a layer's block of tensors.
pub open spec fn block_prefix(role: ModelRole, layer: nat, block: Seq<char>) -> Seq<char> {
    role_prefix(role) + decimal(layer) + block
}

fn block_name(role: ModelRole, layer: usize, block: &str) -> (name: String)
    ensures
        name@ == block_prefix(role, layer as nat, block@),
{
    let mut name: String = match role {
        ModelRole::Target => "model.layers.".to_owned(),
        ModelRole::Mtp => "mtp.layers.".to_owned(),
    };
    let number = decimal_text(layer);
    name.append(number.as_str());
    name.append(block);
    name
}

/// What an attention layer asks of a weight source.
#[derive(Debug, Clone, Copy, PartialEq, Eq, Structural)]
pub struct AttentionLoad {
    pub q_group_size: i32,
    pub q_bits: i32,
    pub o_group_size: i32,
    pub o_bits: i32,
    /// Query heads, each with its gate.
    pub query_heads: i32,
    pub kv_heads: i32,
    pub head_dim: i32,
    pub pinned_qwen38_target: bool,
}

/// What an attention layer asks of a weight source.
pub fn attention_load(
    config: &Qwen3NextConfig,
    role: ModelRole,
    layer: usize,
    pinned_checkpoint: bool,
) -> (load: AttentionLoad)
    requires
        config.num_attention_heads * 2 <= i32::MAX,
        config.num_key_value_heads <= i32::MAX,
        config.head_dim <= i32::MAX,
    ensures
        (load.q_group_size, load.q_bits) == quantization_of(
            config.quantization,
            block_prefix(role, layer as nat, ".self_attn.q_proj"@),
        ),
        (load.o_group_size, load.o_bits) == quantization_of(
            config.quantization,
            block_prefix(role, layer as nat, ".self_attn.o_proj"@),
        ),
        load.query_heads == config.num_attention_heads * 2,
        load.kv_heads == config.num_key_value_heads,
        load.head_dim == config.head_dim,
        load.pinned_qwen38_target == (pinned_checkpoint && role == ModelRole::Target),
{
    let q_name = block_name(role, layer, ".self_attn.q_proj");
    let o_name = block_name(role, layer, ".self_attn.o_proj");
    let (q_group_size, q_bits): (i32, i32) = config.quant_params(q_name.as_str());
    let (o_group_size, o_bits): (i32, i32) = config.quant_params(o_name.as_str());
    AttentionLoad {
        q_group_size,
        q_bits,
        o_group_size,
        o_bits,
        query_heads: (config.num_attention_heads * 2) as i32,
        kv_heads: config.num_key_value_heads as i32,
        head_dim: config.head_dim as i32,
        pinned_qwen38_target: pinned_checkpoint && role == ModelRole::Target,
    }
}

/// A feed-forward block of the fusion plan.
#[derive(Debug, Clone, Copy, PartialEq, Eq, Structural)]
pub struct MlpFusionDescriptor {
    pub role: ModelRole,
    /// Layer in the plan's own numbering, in which the drafter follows the target's layers.
    pub layer: usize,
    pub all_affine: bool,
}

/// The layer under which the fusion plan lists a block.
pub open spec fn planned_layer(role: ModelRole, layer: usize) -> usize {
    match role {
        ModelRole::Target => layer,
        ModelRole::Mtp => 64,
    }
}

/// Whether the first entry of the plan for this block says that all its projections are affine.
pub open spec fn planned_affine(
    plan: Seq<MlpFusionDescriptor>,
    role: ModelRole,
    layer: usize,
) -> bool
    decreases plan.len(),
{
    if plan.len() == 0 {
        false
    } else if plan[0].role == role && plan[0].layer == planned_layer(role, layer) {
        plan[0].all_affine
    } else {
        planned_affine(plan.skip(1), role, layer)
    }
}

fn fusion_plan_affine(plan: &[MlpFusionDescriptor], role: ModelRole, layer: usize) -> (affine: bool)
    ensures
        affine == planned_affine(plan@, role, layer),
{
    let wanted: usize = match role {
        ModelRole::Target => layer,
        ModelRole::Mtp => 64,
    };
    let mut index: usize = 0;
    assert(plan@.skip(0) == plan@);
    while index < plan.len()
        invariant
            index <= plan@.len(),
            wanted == planned_layer(role, layer),
            planned_affine(plan@.skip(index as int), role, layer) == planned_affine(
                plan@,
                role,
                layer,
            ),
        decreases plan@.len() - index,
    {
        assert(plan@.skip(index as int)[0] == plan@[index as int]);
        assert(plan@.skip(index as int).skip(1) == plan@.skip(index + 1));
        if plan[index].role == role && plan[index].layer == wanted {
            return plan[index].all_affine;
        }
        index = index + 1;
    }
    false
}

/// What fusing needs to know of an unpacked quantised projection.
#[derive(Debug, Clone, Copy, PartialEq, Eq, Structural)]
pub struct LegacyProjection {
    pub group_size: i32,
    pub bits: i32,
    /// Identifier of the quantisation mode.
    pub mode: u32,
    pub has_global_scale: bool,
    pub has_group_biases: bool,
    /// Whether the projection has a bias of its own.
    pub has_linear_bias: bool,
    pub output_rows: i32,
}

/// How a feed-forward block is run.
#[derive(Debug, Clone, Copy, PartialEq, Eq, Structural)]
pub enum MlpExecution {
    /// One fused kernel for two rows.
    PinnedM2,
    /// One fused kernel; tells per projection whether it is on the allowlist for two to four rows.
    PinnedAffine { gate_m234: bool, up_m234: bool, down_m234: bool },
    /// Gate and up as one projection, split at `intermediate_size`.
    FusedInput { intermediate_size: i32 },
    /// Three projections of their own.
    Separate,
}

/// Whether two unpacked projections can be stacked into one: same quantisation, no global scale,
/// group biases on both, no bias of their own.
pub open spec fn stackable(gate: LegacyProjection, up: LegacyProjection) -> bool {
    &&& !gate.has_linear_bias && !up.has_linear_bias
    &&& gate.group_size == up.group_size
    &&& gate.bits == up.bits
    &&& gate.mode == up.mode
    &&& !gate.has_global_scale && !up.has_global_scale
    &&& gate.has_group_biases && up.has_group_biases
}

/// How the input projections of a feed-forward block are run when no fused kernel takes it.
pub fn fuse_mlp_input_projections(
    gate: Option<LegacyProjection>,
    up: Option<LegacyProjection>,
) -> (execution: MlpExecution)
    ensures
        execution == (if gate is Some && up is Some && stackable(gate->0, up->0) {
            MlpExecution::FusedInput { intermediate_size: gate->0.output_rows }
        } else {
            MlpExecution::Separate
        }),
{
    match (gate, up) {
        (Some(gate), Some(up)) => if gate.has_linear_bias || up.has_linear_bias || gate.group_size
            != up.group_size || gate.bits != up.bits || gate.mode != up.mode
            || gate.has_global_scale || up.has_global_scale || !gate.has_group_biases
            || !up.has_group_biases {
            MlpExecution::Separate
        } else {
            MlpExecution::FusedInput { intermediate_size: gate.output_rows }
        },
        _ => MlpExecution::Separate,
    }
}

/// Decides how a feed-forward block is run. Fused kernels take blocks that the fusion plan lists
/// as affine, when they are on and the projections were loaded the way they need.
pub fn mlp_from_weights(
    role: ModelRole,
    layer: usize,
    fusion_enabled: bool,
    plan: &[MlpFusionDescriptor],
    gate: Qwen35LinearKind,
    up: Qwen35LinearKind,
    down: Qwen35LinearKind,
    legacy_gate: Option<LegacyProjection>,
    legacy_up: Option<LegacyProjection>,
) -> (execution: MlpExecution)
    ensures
        ({
            let planned = fusion_enabled && planned_affine(plan@, role, layer);
            execution == (if planned && role == ModelRole::Mtp && gate
                == Qwen35LinearKind::PinnedM2Affine && up == Qwen35LinearKind::PinnedM2Affine
                && down == Qwen35LinearKind::PinnedM2Affine {
                MlpExecution::PinnedM2
            } else if planned && gate.plain_affine() && up.plain_affine() && down.plain_affine() {
                MlpExecution::PinnedAffine {
                    gate_m234: gate == Qwen35LinearKind::PinnedM234Affine,
                    up_m234: up == Qwen35LinearKind::PinnedM234Affine,
                    down_m234: down == Qwen35LinearKind::PinnedM234Affine,
                }
            } else if legacy_gate is Some && legacy_up is Some && stackable(
                legacy_gate->0,
                legacy_up->0,
            ) {
                MlpExecution::FusedInput { intermediate_size: legacy_gate->0.output_rows }
            } else {
                MlpExecution::Separate
            })
        }),
{
    let planned = fusion_enabled && fusion_plan_affine(plan, role, layer);
    if planned && role == ModelRole::Mtp && gate.is_m2_affine() && up.is_m2_affine()
        && down.is_m2_affine() {
        return MlpExecution::PinnedM2;
    }
    if planned {
        if let (Some(gate_m234), Some(up_m234), Some(down_m234)) = (
            gate.into_affine(),
            up.into_affine(),
            down.into_affine(),
        ) {
            return MlpExecution::PinnedAffine { gate_m234, up_m234, down_m234 };
        }
    }
    fuse_mlp_input_projections(legacy_gate, legacy_up)
}

/// The columns of a stacked input projection that belong to gate and up.
pub fn fused_input_columns(intermediate_size: i32) -> (columns: (RowRange, RowRange))
    requires
        0 < intermediate_size <= i32::MAX / 2,
    ensures
        columns.0 == (RowRange { start: 0, end: intermediate_size }),
        columns.1.start == intermediate_size,
        columns.1.end == 2 * intermediate_size,
{
    (
        RowRange { start: 0, end: intermediate_size },
        RowRange { start: intermediate_size, end: intermediate_size * 2 },
    )
}

} // verus!
