//! What the tables and the bookkeeping of a load come to.

use vstd::prelude::*;
use crate::qwen3_5_weights::slots::{
    affine_qtype, is_pair, layer_base_closed_form, layer_suffix, m234_signature, m2_signature,
    qkv_bundle_uses_layer_slots, qkv_signature, slot_of, slot_offset, tensor_name, LayerTensor, ModelRole,
    PinnedSlot, SlotError, TensorDescriptor, TensorSlot, PINNED_QKV_QTYPES,
};
use crate::qwen3_5_weights::source::{
    page_ceil, page_floor, tensor_range, ByteRange, GgufTensorInfo, GgufWeightSource, NativePlan,
    Qwen35LinearKind, WeightError,
};
use crate::text::decimal;

verus! {

/// The tensors of a layer in the order of the file.
pub open spec fn file_order(full: bool) -> Seq<LayerTensor> {
    if full {
        seq![
            LayerTensor::AttentionKey,
            LayerTensor::AttentionKeyNorm,
            LayerTensor::InputNorm,
            LayerTensor::AttentionOutput,
            LayerTensor::AttentionQuery,
            LayerTensor::AttentionQueryNorm,
            LayerTensor::AttentionValue,
            LayerTensor::MlpDown,
            LayerTensor::MlpGate,
            LayerTensor::MlpUp,
            LayerTensor::PostAttentionNorm,
        ]
    } else {
        seq![
            LayerTensor::LinearGate,
            LayerTensor::InputNorm,
            LayerTensor::LinearQkv,
            LayerTensor::MlpDown,
            LayerTensor::MlpGate,
            LayerTensor::MlpUp,
            LayerTensor::PostAttentionNorm,
            LayerTensor::LinearA,
            LayerTensor::LinearAlpha,
            LayerTensor::LinearBeta,
            LayerTensor::LinearConv,
            LayerTensor::LinearDtBias,
            LayerTensor::LinearNorm,
            LayerTensor::LinearOutput,
        ]
    }
}

/// The tensors of a layer stand where the order of the file has them, and no others do.
pub proof fn layer_tensors_stand_in_file_order(full: bool, tensor: LayerTensor)
    ensures
        slot_offset(full, tensor) matches Some(offset) ==> offset < file_order(full).len()
            && file_order(full)[offset as int] == tensor,
        slot_offset(full, tensor) is None ==> !file_order(full).contains(tensor),
        file_order(true).len() == 11,
        file_order(false).len() == 14,
{
    let order = file_order(full);
    if order.contains(tensor) {
        let at = order.index_of(tensor);
        assert(order[at] == tensor);
    }
}

/// Layers follow each other: the first tensor of a layer stands right after the last one of the
/// layer before, the first of all after the three tensors of the whole model. Every fourth layer has
/// full attention. The drafter's layer is laid out like such a layer, after three tensors of its own,
/// but for its second norm, which comes last.
pub proof fn layers_stand_back_to_back(layer: usize, tensor: LayerTensor)
    requires
        layer < 64,
    ensures
        ({
            let full = layer % 4 == 3;
            let first = 3 + 53 * (layer as int / 4) + 14 * (layer as int % 4);
            let slot = TensorSlot::Layer { role: ModelRole::Target, layer, tensor };
            &&& slot_offset(full, tensor) matches Some(offset) ==> slot_of(slot) == Ok::<
                PinnedSlot,
                SlotError,
            >(PinnedSlot::Target((first + offset) as usize))
            &&& slot_offset(full, tensor) is None ==> slot_of(slot) is Err
        }),
        ({
            let slot = TensorSlot::Layer { role: ModelRole::Mtp, layer: 0, tensor };
            if tensor == LayerTensor::PostAttentionNorm {
                slot_of(slot) == Ok::<PinnedSlot, SlotError>(PinnedSlot::Mtp(17))
            } else {
                match slot_offset(true, tensor) {
                    Some(offset) => slot_of(slot) == Ok::<PinnedSlot, SlotError>(
                        PinnedSlot::Mtp((3 + offset) as usize),
                    ),
                    None => slot_of(slot) is Err,
                }
            }
        }),
        slot_of(TensorSlot::Output) == Ok::<PinnedSlot, SlotError>(PinnedSlot::Target(0)),
        slot_of(TensorSlot::OutputNorm) == Ok::<PinnedSlot, SlotError>(PinnedSlot::Target(1)),
        slot_of(TensorSlot::TokenEmbedding) == Ok::<PinnedSlot, SlotError>(PinnedSlot::Target(2)),
        slot_of(TensorSlot::MtpProjection) == Ok::<PinnedSlot, SlotError>(PinnedSlot::Mtp(13)),
        slot_of(TensorSlot::MtpEmbeddingNorm) == Ok::<PinnedSlot, SlotError>(PinnedSlot::Mtp(14)),
        slot_of(TensorSlot::MtpHiddenNorm) == Ok::<PinnedSlot, SlotError>(PinnedSlot::Mtp(15)),
        slot_of(TensorSlot::MtpHeadNorm) == Ok::<PinnedSlot, SlotError>(PinnedSlot::Mtp(16)),
{
    layer_base_closed_form(layer as nat);
}

/// The names that the tensors of a layer have below it.
pub proof fn layer_tensors_are_called()
    ensures
        layer_suffix(LayerTensor::InputNorm) == "input_layernorm.weight"@,
        layer_suffix(LayerTensor::PostAttentionNorm) == "post_attention_layernorm.weight"@,
        layer_suffix(LayerTensor::AttentionQuery) == "self_attn.q_proj.weight"@,
        layer_suffix(LayerTensor::AttentionKey) == "self_attn.k_proj.weight"@,
        layer_suffix(LayerTensor::AttentionValue) == "self_attn.v_proj.weight"@,
        layer_suffix(LayerTensor::AttentionOutput) == "self_attn.o_proj.weight"@,
        layer_suffix(LayerTensor::AttentionQueryNorm) == "self_attn.q_norm.weight"@,
        layer_suffix(LayerTensor::AttentionKeyNorm) == "self_attn.k_norm.weight"@,
        layer_suffix(LayerTensor::MlpGate) == "mlp.gate_proj.weight"@,
        layer_suffix(LayerTensor::MlpUp) == "mlp.up_proj.weight"@,
        layer_suffix(LayerTensor::MlpDown) == "mlp.down_proj.weight"@,
        layer_suffix(LayerTensor::LinearQkv) == "linear_attn.in_proj_qkv.weight"@,
        layer_suffix(LayerTensor::LinearGate) == "linear_attn.in_proj_z.weight"@,
        layer_suffix(LayerTensor::LinearBeta) == "linear_attn.in_proj_b.weight"@,
        layer_suffix(LayerTensor::LinearAlpha) == "linear_attn.in_proj_a.weight"@,
        layer_suffix(LayerTensor::LinearConv) == "linear_attn.conv1d.weight"@,
        layer_suffix(LayerTensor::LinearDtBias) == "linear_attn.dt_bias"@,
        layer_suffix(LayerTensor::LinearA) == "linear_attn.A_log"@,
        layer_suffix(LayerTensor::LinearNorm) == "linear_attn.norm.weight"@,
        layer_suffix(LayerTensor::LinearOutput) == "linear_attn.out_proj.weight"@,
{
}

/// The names of the tensors outside the layers, and how the names of layers begin.
pub proof fn model_tensors_are_called(layer: usize, tensor: LayerTensor)
    ensures
        tensor_name(TensorSlot::TokenEmbedding) == "model.embed_tokens.weight"@,
        tensor_name(TensorSlot::Output) == "lm_head.weight"@,
        tensor_name(TensorSlot::OutputNorm) == "model.norm.weight"@,
        tensor_name(TensorSlot::MtpEmbeddingNorm) == "mtp.pre_fc_norm_embedding.weight"@,
        tensor_name(TensorSlot::MtpHiddenNorm) == "mtp.pre_fc_norm_hidden.weight"@,
        tensor_name(TensorSlot::MtpProjection) == "mtp.fc.weight"@,
        tensor_name(TensorSlot::MtpHeadNorm) == "mtp.norm.weight"@,
        tensor_name(TensorSlot::Layer { role: ModelRole::Target, layer, tensor })
            == "model.layers."@ + decimal(layer as nat) + "."@ + layer_suffix(tensor),
        tensor_name(TensorSlot::Layer { role: ModelRole::Mtp, layer, tensor }) == "mtp.layers."@
            + decimal(layer as nat) + "."@ + layer_suffix(tensor),
{
}

/// A bundle of query, key and value is run only for the full-attention layers of the target, with the
/// types that are pinned for the layer, and only where the plan has these types and the shapes of
/// twenty-four gated query heads and four key heads of two hundred and fifty-six.
pub proof fn bundles_are_planned(role: ModelRole, layer: usize, plan: Seq<TensorDescriptor>)
    ensures
        ({
            let first = 3 + 53 * (layer as int / 4) + 14 * (layer as int % 4);
            let key = plan[first];
            let query = plan[first + 4];
            let value = plan[first + 6];
            qkv_signature(role, layer, plan) is Some <==> {
                &&& role == ModelRole::Target
                &&& layer < 64
                &&& layer % 4 == 3
                &&& PINNED_QKV_QTYPES[layer as int / 4] == (query.qtype, key.qtype, value.qtype)
                &&& key.dimensions@.len() == 2 && key.dimensions@[0] == 5120 && key.dimensions@[1]
                    == 4 * 256
                &&& value.dimensions@.len() == 2 && value.dimensions@[0] == 5120
                    && value.dimensions@[1] == 4 * 256
                &&& query.dimensions@.len() == 2 && query.dimensions@[0] == 5120
                    && query.dimensions@[1] == 2 * 24 * 256
            }
        }),
        qkv_signature(role, layer, plan) matches Some(signature) ==> PINNED_QKV_QTYPES[layer as int
            / 4] == (signature.query_qtype, signature.key_qtype, signature.value_qtype),
{
    if layer < 64 {
        layer_base_closed_form(layer as nat);
    }
}

/// Page boundaries: the one at or after a place is the least multiple of a page that is not smaller,
/// the one at or before it the largest that is not larger.
pub proof fn pages_are_the_nearest(place: int)
    requires
        place >= 0,
    ensures
        page_ceil(place) % 4096 == 0,
        place <= page_ceil(place) < place + 4096,
        page_floor(place) % 4096 == 0,
        place - 4096 < page_floor(place) <= place,
{
}

/// The bytes of a tensor start at its offset, are as many as its length, and lie inside the file;
/// a tensor that does so is found.
pub proof fn tensors_lie_where_they_are_said_to(
    slot: PinnedSlot,
    tensor: GgufTensorInfo,
    map_len: usize,
)
    ensures
        ({
            let start = tensor.absolute_offset as int;
            let end = start + tensor.byte_len;
            tensor_range(slot, tensor, map_len as nat) is Ok <==> end <= map_len
        }),
        tensor_range(slot, tensor, map_len as nat) matches Ok(bytes) ==> bytes.start
            == tensor.absolute_offset && bytes.end - bytes.start == tensor.byte_len && bytes.end
            <= map_len,
        tensor.absolute_offset + tensor.byte_len <= usize::MAX && tensor.absolute_offset
            + tensor.byte_len > map_len ==> tensor_range(slot, tensor, map_len as nat) == Err::<
            ByteRange,
            WeightError,
        >(WeightError::BeyondFile(slot)),
{
}

/// An unquantised tensor has its dimensions in reverse, the slowest first.
pub proof fn native_tensors_have_reversed_dimensions(
    tensor: GgufTensorInfo,
    bytes: ByteRange,
    plan: NativePlan,
)
    requires
        GgufWeightSource::native_plan(tensor, bytes, Ok(plan)),
    ensures
        tensor.qtype == 0,
        plan.bytes == bytes,
        plan.shape@.len() == tensor.dimensions@.len(),
        forall|i: int|
            0 <= i < plan.shape@.len() ==> #[trigger] plan.shape@[i]
                == tensor.dimensions@[plan.shape@.len() - 1 - i],
{
}

/// A projection is kept with the type, shape and bytes of its tensor. The head and other six-bit
/// tensors have their own forms; of the rest, allowlisted ones go to their kernels where those are
/// on, and all others stay plain.
pub proof fn projections_are_kept_as_they_are(
    source: GgufWeightSource,
    typed_slot: TensorSlot,
    slot: PinnedSlot,
    tensor: GgufTensorInfo,
    bytes: ByteRange,
    plan: Seq<TensorDescriptor>,
)
    ensures
        source.linear_plan(typed_slot, slot, tensor, bytes, plan) matches Ok(kept) ==> {
            let target = m234_signature(typed_slot, plan);
            let drafter = m2_signature(typed_slot);
            let six_bit = tensor.qtype == 14;
            &&& tensor.dimensions@.len() == 2
            &&& kept.input == tensor.dimensions@[0]
            &&& kept.output == tensor.dimensions@[1]
            &&& kept.qtype == tensor.qtype
            &&& kept.bytes == bytes
            &&& source.knows(tensor.qtype)
            &&& six_bit || affine_qtype(tensor.qtype)
            &&& kept.kind == Qwen35LinearKind::Gguf <==> six_bit && slot == PinnedSlot::Target(0)
            &&& kept.kind == Qwen35LinearKind::Q6Dual <==> six_bit && slot != PinnedSlot::Target(0)
            &&& kept.kind == Qwen35LinearKind::PinnedM234Affine <==> !six_bit && target is Some
                && source.m234()
            &&& kept.kind == Qwen35LinearKind::PinnedM2Affine <==> !six_bit && target is None
                && drafter is Some && source.m234()
            &&& kept.kind == Qwen35LinearKind::Affine <==> !six_bit && !(source.m234() && (target is Some
                || drafter is Some))
            &&& kept.f16_sidecars <==> target is Some && source.sidecars() && (tensor.qtype == 13
                || tensor.qtype == 21)
            &&& target is Some ==> tensor.qtype == target->0.qtype && is_pair(
                tensor.dimensions@,
                target->0.dimensions,
            )
            &&& drafter is Some ==> tensor.qtype == drafter->0.qtype && is_pair(
                tensor.dimensions@,
                drafter->0.dimensions,
            )
        },
{
}

/// An embedding is kept with the type, shape and bytes of its tensor, and affine where its type is.
pub proof fn embeddings_are_kept_as_they_are(
    source: GgufWeightSource,
    tensor: GgufTensorInfo,
    bytes: ByteRange,
)
    ensures
        source.embedding_plan(tensor, bytes) matches Ok(kept) ==> {
            &&& tensor.dimensions@.len() == 2
            &&& kept.embedding_dim == tensor.dimensions@[0]
            &&& kept.vocab_size == tensor.dimensions@[1]
            &&& kept.qtype == tensor.qtype
            &&& kept.bytes == bytes
            &&& kept.affine == (tensor.qtype == 8 || tensor.qtype == 11 || tensor.qtype == 12
                || tensor.qtype == 13 || tensor.qtype == 20 || tensor.qtype == 21 || tensor.qtype
                == 23)
        },
        tensor.dimensions@.len() == 2 && source.knows(tensor.qtype) && tensor.dimensions@[0]
            <= usize::MAX && tensor.dimensions@[1] <= usize::MAX ==> source.embedding_plan(
            tensor,
            bytes,
        ) is Ok,
{
}

/// A part of a bundle is kept with the type, shape and bytes of its tensor, which are those expected;
/// six-bit parts are keys or values, and only a query of type thirteen has half-precision companions.
pub proof fn bundled_parts_are_as_expected(
    source: GgufWeightSource,
    expected_qtype: u32,
    expected_output: u64,
    query: bool,
    tensor: GgufTensorInfo,
    bytes: ByteRange,
)
    ensures
        source.bundle_plan(expected_qtype, expected_output, query, tensor, bytes) matches Ok(kept)
            ==> {
            &&& tensor.qtype == expected_qtype
            &&& tensor.dimensions@.len() == 2
            &&& kept.input == tensor.dimensions@[0] == 5120
            &&& kept.output == tensor.dimensions@[1] == expected_output
            &&& kept.qtype == tensor.qtype
            &&& kept.bytes == bytes
            &&& kept.kind == Qwen35LinearKind::Q6Dual <==> tensor.qtype == 14
            &&& kept.kind == Qwen35LinearKind::Affine <==> tensor.qtype != 14
            &&& tensor.qtype == 14 ==> !query
            &&& kept.f16_sidecars <==> query && source.sidecars() && tensor.qtype == 13
                && expected_output == 12288
        },
{
}

/// Nothing is missing at the end of a load exactly if every tensor of both files was taken or is left
/// out on purpose; what is missing was not taken, and is listed in the order of the files.
pub proof fn missing_tensors_were_not_taken(
    source: GgufWeightSource,
    target_nonresident: Seq<usize>,
    mtp_nonresident: Seq<usize>,
    index: usize,
)
    ensures
        ({
            let missing = source.missing(target_nonresident, mtp_nonresident);
            &&& missing.contains(PinnedSlot::Target(index)) == (index < 866 && !source.used(
                PinnedSlot::Target(index),
            ) && !target_nonresident.contains(index))
            &&& missing.contains(PinnedSlot::Mtp(index)) == (index < 18 && !source.used(
                PinnedSlot::Mtp(index),
            ) && !mtp_nonresident.contains(index))
        }),
{
    let all = GgufWeightSource::all_slots();
    let keep = |slot: PinnedSlot|
        !source.used(slot) && !GgufWeightSource::nonresident(
            slot,
            target_nonresident,
            mtp_nonresident,
        );
    let missing = source.missing(target_nonresident, mtp_nonresident);
    assert(missing == all.filter(keep));
    filtered_holds(all, keep, PinnedSlot::Target(index));
    filtered_holds(all, keep, PinnedSlot::Mtp(index));
    if index < 866 {
        assert(all[index as int] == PinnedSlot::Target(index));
    }
    if index < 18 {
        assert(all[866 + index] == PinnedSlot::Mtp(index));
    }
    if all.contains(PinnedSlot::Target(index)) {
        let at = all.index_of(PinnedSlot::Target(index));
        assert(all[at] == PinnedSlot::Target(index));
    }
    if all.contains(PinnedSlot::Mtp(index)) {
        let at = all.index_of(PinnedSlot::Mtp(index));
        assert(all[at] == PinnedSlot::Mtp(index));
    }
}

proof fn filtered_holds(all: Seq<PinnedSlot>, keep: spec_fn(PinnedSlot) -> bool, slot: PinnedSlot)
    ensures
        all.filter(keep).contains(slot) == (all.contains(slot) && keep(slot)),
    decreases all.len(),
{
    reveal(Seq::filter);
    if all.len() > 0 {
        let front = all.drop_last();
        filtered_holds(front, keep, slot);
        let kept = all.filter(keep);
        if kept.contains(slot) {
            let at = kept.index_of(slot);
            if at < front.filter(keep).len() {
                assert(front.filter(keep)[at] == slot);
                let place = front.index_of(slot);
                assert(all[place] == slot);
            } else {
                assert(all[all.len() - 1] == slot);
            }
        }
        if all.contains(slot) && keep(slot) {
            let at = all.index_of(slot);
            if at < front.len() {
                assert(front[at] == slot);
                let place = front.filter(keep).index_of(slot);
                assert(kept[place] == slot);
            } else {
                assert(kept[kept.len() - 1] == slot);
            }
        }
    }
}

/// A projection of an attention layer is taken out of its own place, which was not taken before, and
/// with the bytes of its own tensor. In a bundle the query has two rows for each of twenty-four heads
/// of two hundred and fifty-six, its gate among them, and key and value have four heads.
pub proof fn attention_parts_keep_their_places(
    source: GgufWeightSource,
    role: ModelRole,
    layer: usize,
    part: LayerTensor,
    tensor: GgufTensorInfo,
    map_len: usize,
    plan: Seq<TensorDescriptor>,
)
    requires
        part == LayerTensor::AttentionQuery || part == LayerTensor::AttentionKey || part
            == LayerTensor::AttentionValue,
    ensures
        source.qkv_part(role, layer, part, tensor, map_len as nat, plan) matches Ok(kept) ==> {
            let slot = slot_of(TensorSlot::Layer { role, layer, tensor: part });
            let bundled = source.fusion() && qkv_signature(role, layer, plan) is Some;
            &&& slot is Ok
            &&& !source.used(slot->Ok_0)
            &&& kept.bytes.start == tensor.absolute_offset
            &&& kept.bytes.end - kept.bytes.start == tensor.byte_len
            &&& kept.bytes.end <= map_len
            &&& kept.input == tensor.dimensions@[0]
            &&& kept.output == tensor.dimensions@[1]
            &&& kept.qtype == tensor.qtype
            &&& bundled && part == LayerTensor::AttentionQuery ==> kept.output == 2 * 24 * 256
            &&& bundled && part != LayerTensor::AttentionQuery ==> kept.output == 4 * 256
            &&& bundled && part == LayerTensor::AttentionKey ==> kept.qtype
                == PINNED_QKV_QTYPES[layer as int / 4].1
            &&& bundled && part == LayerTensor::AttentionValue ==> kept.qtype
                == PINNED_QKV_QTYPES[layer as int / 4].2
            &&& bundled && part == LayerTensor::AttentionQuery ==> kept.qtype
                == PINNED_QKV_QTYPES[layer as int / 4].0
        },
{
    if qkv_signature(role, layer, plan) is Some {
        qkv_bundle_uses_layer_slots(role, layer, plan);
    }
}

/// The types of query, key and value of the full-attention layers, from the first to the last.
pub proof fn bundled_types_are_fixed()
    ensures
        PINNED_QKV_QTYPES[0] == (13u32, 12u32, 13u32),
        PINNED_QKV_QTYPES[1] == (12u32, 13u32, 13u32),
        PINNED_QKV_QTYPES[2] == (13u32, 14u32, 8u32),
        PINNED_QKV_QTYPES[3] == (12u32, 14u32, 8u32),
        PINNED_QKV_QTYPES[4] == (12u32, 14u32, 14u32),
        PINNED_QKV_QTYPES[5] == (12u32, 13u32, 8u32),
        PINNED_QKV_QTYPES[6] == (23u32, 14u32, 8u32),
        PINNED_QKV_QTYPES[7] == (13u32, 8u32, 8u32),
        PINNED_QKV_QTYPES[8] == (13u32, 14u32, 8u32),
        PINNED_QKV_QTYPES[9] == (12u32, 14u32, 14u32),
        PINNED_QKV_QTYPES[10] == (13u32, 14u32, 14u32),
        PINNED_QKV_QTYPES[11] == (23u32, 14u32, 13u32),
        PINNED_QKV_QTYPES[12] == (13u32, 14u32, 8u32),
        PINNED_QKV_QTYPES[13] == (12u32, 14u32, 8u32),
        PINNED_QKV_QTYPES[14] == (13u32, 14u32, 8u32),
        PINNED_QKV_QTYPES[15] == (13u32, 14u32, 8u32),
        PINNED_QKV_QTYPES@.len() == 16,
{
}

} // verus!
