use qwen_runtime::qwen3_5_weights::slots::{
    layer_slot_offset, pinned_affine_qtype, pinned_m234_affine_signature,
    pinned_m2_affine_signature, pinned_qkv_bundle_signature, pinned_slot, LayerTensor, ModelRole,
    PinnedSlot, SlotError, TensorDescriptor, TensorSlot, PINNED_QKV_QTYPES,
};
use qwen_runtime::qwen3_5_weights::source::{
    discard_tensor_byte_range, discard_tensor_pages, parse_qwen38_mlp_carrier_enabled,
    pinned_q6_shape, qwen38_mlp_carrier_env_var, ByteRange, GgufAffineLoadStats, GgufTensorInfo,
    GgufWeightSource, QkvPlan, Qwen35LinearKind, Qwen38Q6Shape, TranscodeStats, WeightError,
};
use qwen_runtime::qwen3_next::use_qwen38_high_m_fp16_attention;

/// Target tensors of the allowlisted roles that the plan below keeps in a six-bit format.
const SIX_BIT_SLOTS: [usize; 34] = [
    30, 44, 48, 86, 97, 295, 309, 313, 334, 348, 366, 374, 419, 472, 578, 680, 684, 705, 748, 758,
    762, 772, 776, 777, 786, 794, 795, 796, 802, 839, 843, 847, 848, 849,
];

/// How many tensors of a role the plan below keeps in each format.
fn format_quota(tensor: LayerTensor) -> Vec<(u32, usize)> {
    match tensor {
        LayerTensor::MlpGate => vec![(11, 1), (12, 13), (13, 19), (20, 2), (23, 25)],
        LayerTensor::MlpUp => vec![(11, 2), (12, 6), (13, 32), (20, 1), (23, 21)],
        LayerTensor::MlpDown => vec![(12, 5), (13, 35), (20, 2), (21, 1), (23, 16)],
        LayerTensor::LinearQkv => vec![(12, 23), (13, 21), (20, 1), (23, 2)],
        LayerTensor::LinearGate => vec![(12, 13), (13, 31), (23, 3)],
        LayerTensor::LinearAlpha => vec![(8, 48)],
        LayerTensor::LinearBeta => vec![(8, 48)],
        LayerTensor::LinearOutput => vec![(8, 1), (12, 1), (13, 33)],
        LayerTensor::AttentionOutput => vec![(13, 7), (23, 1)],
        _ => vec![],
    }
}

fn role_dimensions(tensor: LayerTensor) -> [u64; 2] {
    match tensor {
        LayerTensor::MlpGate | LayerTensor::MlpUp => [5120, 17_408],
        LayerTensor::MlpDown => [17_408, 5120],
        LayerTensor::LinearQkv => [5120, 10_240],
        LayerTensor::LinearGate => [5120, 6144],
        LayerTensor::LinearAlpha | LayerTensor::LinearBeta => [5120, 48],
        LayerTensor::LinearOutput | LayerTensor::AttentionOutput => [6144, 5120],
        LayerTensor::AttentionQuery => [5120, 12_288],
        LayerTensor::AttentionKey | LayerTensor::AttentionValue => [5120, 1024],
        _ => unreachable!(),
    }
}

/// A plan with as many tensors of each role and format, in each layer, as the pinned file has. Which
/// tensor of a role has which format is chosen here.
fn target_plan() -> Vec<TensorDescriptor> {
    let mut plan: Vec<TensorDescriptor> = (0..866)
        .map(|_| TensorDescriptor { qtype: 0, dimensions: vec![5120] })
        .collect();
    let roles = [
        LayerTensor::AttentionQuery,
        LayerTensor::AttentionKey,
        LayerTensor::AttentionValue,
        LayerTensor::MlpGate,
        LayerTensor::MlpUp,
        LayerTensor::MlpDown,
        LayerTensor::LinearQkv,
        LayerTensor::LinearGate,
        LayerTensor::LinearAlpha,
        LayerTensor::LinearBeta,
        LayerTensor::LinearOutput,
        LayerTensor::AttentionOutput,
    ];
    for tensor in roles {
        let mut quota = format_quota(tensor);
        for layer in 0..64 {
            let slot = TensorSlot::Layer { role: ModelRole::Target, layer, tensor };
            let Ok(PinnedSlot::Target(index)) = pinned_slot(slot) else {
                continue;
            };
            let (query, key, value) = PINNED_QKV_QTYPES[layer / 4];
            let qtype = match tensor {
                LayerTensor::AttentionQuery => query,
                LayerTensor::AttentionKey => key,
                LayerTensor::AttentionValue => value,
                _ if SIX_BIT_SLOTS.contains(&index) => 14,
                _ => {
                    let next = quota.iter_mut().find(|(_, left)| *left > 0).unwrap();
                    next.1 -= 1;
                    next.0
                }
            };
            plan[index] = TensorDescriptor {
                qtype,
                dimensions: role_dimensions(tensor).to_vec(),
            };
        }
    }
    plan
}

/// Name, type and dimensions of a tensor of the pinned prediction file.
fn mtp_plan(slot: usize) -> (&'static str, u32, (u64, u64)) {
    match slot {
        3 => ("blk.64.attn_k.weight", 14, (5120, 1024)),
        6 => ("blk.64.attn_output.weight", 14, (6144, 5120)),
        7 => ("blk.64.attn_q.weight", 14, (5120, 12_288)),
        9 => ("blk.64.attn_v.weight", 14, (5120, 1024)),
        10 => ("blk.64.ffn_down.weight", 12, (17_408, 5120)),
        11 => ("blk.64.ffn_gate.weight", 12, (5120, 17_408)),
        12 => ("blk.64.ffn_up.weight", 12, (5120, 17_408)),
        13 => ("blk.64.nextn.eh_proj.weight", 12, (10_240, 5120)),
        _ => unreachable!(),
    }
}

fn target(layer: usize, tensor: LayerTensor) -> TensorSlot {
    TensorSlot::Layer { role: ModelRole::Target, layer, tensor }
}

fn mtp(layer: usize, tensor: LayerTensor) -> TensorSlot {
    TensorSlot::Layer { role: ModelRole::Mtp, layer, tensor }
}

#[test]
fn qwen38_mlp_carrier_kill_switch_defaults_on() {
    assert!(parse_qwen38_mlp_carrier_enabled(None));
    assert!(parse_qwen38_mlp_carrier_enabled(Some("1")));
    assert!(parse_qwen38_mlp_carrier_enabled(Some("yes")));
    for disabled in ["0", "false", "OFF", " no "] {
        assert!(!parse_qwen38_mlp_carrier_enabled(Some(disabled)));
    }
}

#[test]
fn pinned_qkv_bundle_gate_is_exactly_the_16_full_attention_descriptors() {
    let plan = target_plan();
    let expected_layers = [
        3usize, 7, 11, 15, 19, 23, 27, 31, 35, 39, 43, 47, 51, 55, 59, 63,
    ];
    for layer in 0..=64 {
        let signature = pinned_qkv_bundle_signature(ModelRole::Target, layer, &plan);
        if let Some(index) = expected_layers.iter().position(|expected| *expected == layer) {
            let signature = signature.expect("pinned full-attention layer must be bundled");
            let base = 3 + layer * 14 - (layer / 4) * 3;
            assert_eq!(
                (signature.key_slot, signature.query_slot, signature.value_slot),
                (base, base + 4, base + 6),
            );
            assert_eq!(
                (signature.query_qtype, signature.key_qtype, signature.value_qtype),
                PINNED_QKV_QTYPES[index],
            );
        } else {
            assert!(signature.is_none(), "unexpected QKV bundle at layer {layer}");
        }
        assert!(pinned_qkv_bundle_signature(ModelRole::Mtp, layer, &plan).is_none());
    }
}

#[test]
fn exact_typed_mapping_covers_target_and_mtp_topology() {
    assert_eq!(
        pinned_slot(target(63, LayerTensor::AttentionOutput)),
        Ok(PinnedSlot::Target(843))
    );
    assert_eq!(
        pinned_slot(target(62, LayerTensor::LinearQkv)),
        Ok(PinnedSlot::Target(828))
    );
    assert_eq!(pinned_slot(mtp(0, LayerTensor::MlpDown)), Ok(PinnedSlot::Mtp(10)));
    assert_eq!(
        pinned_slot(mtp(0, LayerTensor::PostAttentionNorm)),
        Ok(PinnedSlot::Mtp(17))
    );
    assert_eq!(pinned_slot(TensorSlot::MtpProjection), Ok(PinnedSlot::Mtp(13)));
    assert!(pinned_slot(target(64, LayerTensor::MlpDown)).is_err());
}

#[test]
fn pinned_m2_allowlist_is_exactly_four_mtp_descriptors() {
    const TENSORS: [LayerTensor; 20] = [
        LayerTensor::InputNorm,
        LayerTensor::PostAttentionNorm,
        LayerTensor::AttentionQuery,
        LayerTensor::AttentionKey,
        LayerTensor::AttentionValue,
        LayerTensor::AttentionOutput,
        LayerTensor::AttentionQueryNorm,
        LayerTensor::AttentionKeyNorm,
        LayerTensor::MlpGate,
        LayerTensor::MlpUp,
        LayerTensor::MlpDown,
        LayerTensor::LinearQkv,
        LayerTensor::LinearGate,
        LayerTensor::LinearBeta,
        LayerTensor::LinearAlpha,
        LayerTensor::LinearConv,
        LayerTensor::LinearDtBias,
        LayerTensor::LinearA,
        LayerTensor::LinearNorm,
        LayerTensor::LinearOutput,
    ];

    let mut slots = Vec::new();
    for tensor in TENSORS {
        let slot = mtp(0, tensor);
        if let Some(signature) = pinned_m2_affine_signature(slot) {
            assert_eq!(pinned_slot(slot), Ok(PinnedSlot::Mtp(signature.mtp_slot)));
            let (_, qtype, dimensions) = mtp_plan(signature.mtp_slot);
            assert_eq!(qtype, signature.qtype);
            assert_eq!(dimensions, signature.dimensions);
            slots.push(signature.mtp_slot);
        }
        assert!(pinned_m2_affine_signature(target(0, tensor)).is_none());
        assert!(pinned_m2_affine_signature(mtp(1, tensor)).is_none());
    }

    let projection = pinned_m2_affine_signature(TensorSlot::MtpProjection).expect("MTP projection");
    assert_eq!(projection.mtp_slot, 13);
    assert_eq!(projection.qtype, 12);
    assert_eq!(projection.dimensions, (10_240, 5120));
    slots.push(projection.mtp_slot);
    slots.sort_unstable();
    assert_eq!(slots, [10, 11, 12, 13]);
    assert_eq!(
        slots.iter().map(|&slot| mtp_plan(slot).0).collect::<Vec<_>>(),
        [
            "blk.64.ffn_down.weight",
            "blk.64.ffn_gate.weight",
            "blk.64.ffn_up.weight",
            "blk.64.nextn.eh_proj.weight",
        ]
    );

    for root in [
        TensorSlot::TokenEmbedding,
        TensorSlot::Output,
        TensorSlot::OutputNorm,
        TensorSlot::MtpEmbeddingNorm,
        TensorSlot::MtpHiddenNorm,
        TensorSlot::MtpHeadNorm,
    ] {
        assert!(pinned_m2_affine_signature(root).is_none());
    }
    for (slot, tensor) in [
        (3, LayerTensor::AttentionKey),
        (6, LayerTensor::AttentionOutput),
        (7, LayerTensor::AttentionQuery),
        (9, LayerTensor::AttentionValue),
    ] {
        let typed = mtp(0, tensor);
        assert!(pinned_m2_affine_signature(typed).is_none());
        assert_eq!(pinned_slot(typed), Ok(PinnedSlot::Mtp(slot)));
        assert_eq!(mtp_plan(slot).1, 14);
    }
}

#[test]
fn pinned_m234_allowlist_is_exactly_the_430_target_descriptors() {
    const TENSORS: [LayerTensor; 10] = [
        LayerTensor::AttentionQuery,
        LayerTensor::MlpGate,
        LayerTensor::MlpUp,
        LayerTensor::MlpDown,
        LayerTensor::LinearQkv,
        LayerTensor::LinearGate,
        LayerTensor::LinearAlpha,
        LayerTensor::LinearBeta,
        LayerTensor::LinearOutput,
        LayerTensor::AttentionOutput,
    ];
    const EXPECTED_LAYERS: [usize; 64] = [
        8, 7, 7, 4, 8, 8, 6, 5, 8, 8, 8, 5, 8, 8, 8, 5, 8, 8, 8, 5, 8, 7, 7, 4, 7, 7, 8, 4, 7, 8, 8,
        4, 8, 8, 8, 4, 8, 8, 8, 5, 8, 8, 8, 4, 8, 8, 8, 5, 8, 8, 7, 4, 7, 8, 8, 5, 6, 6, 5, 2, 7, 8,
        7, 1,
    ];

    let plan = target_plan();
    let mut signatures = Vec::new();
    for layer in 0..64 {
        for tensor in TENSORS {
            let slot = target(layer, tensor);
            if let Some(signature) = pinned_m234_affine_signature(slot, &plan) {
                assert_eq!(pinned_slot(slot), Ok(PinnedSlot::Target(signature.target_slot)));
                let descriptor = &plan[signature.target_slot];
                assert_eq!(descriptor.qtype, signature.qtype);
                assert_eq!(
                    descriptor.dimensions,
                    [signature.dimensions.0, signature.dimensions.1]
                );
                signatures.push(signature);
            }
            assert!(pinned_m234_affine_signature(mtp(0, tensor), &plan).is_none());
        }
    }

    assert_eq!(signatures.len(), 430);
    let mut layer_counts = [0usize; 64];
    let mut tensor_counts = [0usize; 10];
    let mut qtype_counts = [0usize; 7];
    let mut tensor_qtypes = [[0usize; 7]; 10];
    let mut shape_counts = [0usize; 7];
    let mut occupied_slots = [false; 866];
    let mut slots = Vec::with_capacity(signatures.len());
    for signature in signatures {
        layer_counts[signature.layer] += 1;
        let tensor_index = match signature.tensor {
            LayerTensor::AttentionQuery => 0,
            LayerTensor::MlpGate => 1,
            LayerTensor::MlpUp => 2,
            LayerTensor::MlpDown => 3,
            LayerTensor::LinearQkv => 4,
            LayerTensor::LinearGate => 5,
            LayerTensor::LinearAlpha => 6,
            LayerTensor::LinearBeta => 7,
            LayerTensor::LinearOutput => 8,
            LayerTensor::AttentionOutput => 9,
            _ => unreachable!(),
        };
        let qtype_index = match signature.qtype {
            8 => 0,
            11 => 1,
            12 => 2,
            13 => 3,
            20 => 4,
            21 => 5,
            23 => 6,
            _ => unreachable!(),
        };
        tensor_counts[tensor_index] += 1;
        qtype_counts[qtype_index] += 1;
        tensor_qtypes[tensor_index][qtype_index] += 1;
        shape_counts[match signature.dimensions {
            (5120, 17_408) => 0,
            (17_408, 5120) => 1,
            (5120, 10_240) => 2,
            (5120, 6144) => 3,
            (5120, 48) => 4,
            (6144, 5120) => 5,
            (5120, 12_288) => 6,
            _ => unreachable!(),
        }] += 1;
        assert!(!occupied_slots[signature.target_slot]);
        occupied_slots[signature.target_slot] = true;
        slots.push(signature.target_slot);
    }
    assert_eq!(layer_counts, EXPECTED_LAYERS);
    assert_eq!(tensor_counts, [16, 60, 62, 59, 47, 47, 48, 48, 35, 8]);
    assert_eq!(qtype_counts, [97, 3, 67, 186, 6, 1, 70]);
    assert_eq!(
        tensor_qtypes,
        [
            [0, 0, 6, 8, 0, 0, 2],
            [0, 1, 13, 19, 2, 0, 25],
            [0, 2, 6, 32, 1, 0, 21],
            [0, 0, 5, 35, 2, 1, 16],
            [0, 0, 23, 21, 1, 0, 2],
            [0, 0, 13, 31, 0, 0, 3],
            [48, 0, 0, 0, 0, 0, 0],
            [48, 0, 0, 0, 0, 0, 0],
            [1, 0, 1, 33, 0, 0, 0],
            [0, 0, 0, 7, 0, 0, 1],
        ]
    );
    assert_eq!(shape_counts, [122, 59, 47, 47, 96, 43, 16]);

    slots.sort_unstable();
    let slot_fingerprint = slots.iter().fold(0xcbf2_9ce4_8422_2325u64, |hash, slot| {
        (*slot as u64).to_le_bytes().iter().fold(hash, |hash, byte| {
            (hash ^ u64::from(*byte)).wrapping_mul(0x100_0000_01b3)
        })
    });
    assert_eq!(slots.first(), Some(&3));
    assert_eq!(slots.last(), Some(&844));
    assert_eq!(slots.iter().sum::<usize>(), 178_202);
    assert_eq!(slot_fingerprint, 0x5eae_6e1c_c1d2_f58c);
}

#[test]
fn qwen38_fp16_attention_gate_is_pinned_and_high_m_only() {
    for rows in [1, 3, 4, 127] {
        assert!(!use_qwen38_high_m_fp16_attention(true, true, 1, rows));
    }
    assert!(use_qwen38_high_m_fp16_attention(true, true, 1, 128));
    assert!(use_qwen38_high_m_fp16_attention(true, true, 1, 288));
    assert!(!use_qwen38_high_m_fp16_attention(false, true, 1, 288));
    assert!(!use_qwen38_high_m_fp16_attention(true, false, 1, 288));
}

#[test]
fn tensor_names_follow_the_checkpoint() {
    assert_eq!(qwen38_mlp_carrier_env_var(), "MLXCEL_QWEN38_MLP_CARRIER");
    assert!(pinned_affine_qtype(13));
    assert!(!pinned_affine_qtype(14));
    assert_eq!(layer_slot_offset(true, LayerTensor::MlpUp), Ok(9));
    assert_eq!(layer_slot_offset(false, LayerTensor::LinearOutput), Ok(13));
    assert_eq!(
        layer_slot_offset(true, LayerTensor::LinearGate),
        Err(SlotError::NotFullAttention { tensor: LayerTensor::LinearGate })
    );
    assert_eq!(
        layer_slot_offset(false, LayerTensor::AttentionKey),
        Err(SlotError::NotLinearAttention { tensor: LayerTensor::AttentionKey })
    );
}

#[test]
fn canonical_names_spell_role_layer_and_tensor() {
    assert_eq!(TensorSlot::TokenEmbedding.canonical_name(), "model.embed_tokens.weight");
    assert_eq!(TensorSlot::MtpProjection.canonical_name(), "mtp.fc.weight");
    assert_eq!(
        target(17, LayerTensor::LinearConv).canonical_name(),
        "model.layers.17.linear_attn.conv1d.weight"
    );
    assert_eq!(mtp(0, LayerTensor::MlpUp).canonical_name(), "mtp.layers.0.mlp.up_proj.weight");
    assert_eq!(
        pinned_slot(target(64, LayerTensor::MlpDown)),
        Err(SlotError::OutsideTopology { slot: target(64, LayerTensor::MlpDown) })
    );
}

fn tensor(qtype: u32, dimensions: &[u64], absolute_offset: u64, byte_len: u64) -> GgufTensorInfo {
    GgufTensorInfo { qtype, dimensions: dimensions.to_vec(), absolute_offset, byte_len }
}

fn source(m234: bool, fusion: bool, sidecars: bool) -> GgufWeightSource {
    GgufWeightSource::open_with_features(
        m234,
        fusion,
        sidecars,
        true,
        true,
        vec![0, 8, 10, 11, 12, 13, 14, 20, 21, 23],
    )
}

#[test]
fn six_bit_tensors_have_a_kernel_or_are_refused() {
    let other = PinnedSlot::Target(7);
    assert_eq!(
        pinned_q6_shape(other, &tensor(14, &[5120, 1024], 0, 0)),
        Ok(Some(Qwen38Q6Shape::K5120N1024))
    );
    assert_eq!(
        pinned_q6_shape(other, &tensor(14, &[17_408, 5120], 0, 0)),
        Ok(Some(Qwen38Q6Shape::K17408N5120))
    );
    assert_eq!(pinned_q6_shape(other, &tensor(13, &[1, 2, 3], 0, 0)), Ok(None));
    assert_eq!(
        pinned_q6_shape(other, &tensor(14, &[5120, 1025], 0, 0)),
        Err(WeightError::Q6Dimensions)
    );
    assert_eq!(
        pinned_q6_shape(other, &tensor(14, &[5120], 0, 0)),
        Err(WeightError::Q6Dimensions)
    );
    let head = PinnedSlot::Target(0);
    assert_eq!(pinned_q6_shape(head, &tensor(14, &[5120, 248_320], 0, 0)), Ok(None));
    assert_eq!(
        pinned_q6_shape(head, &tensor(14, &[5120, 1024], 0, 0)),
        Err(WeightError::Q6OutputShapeChanged)
    );
}

#[test]
fn released_pages_are_whole_and_inside() {
    let info = tensor(12, &[4096, 8], 5000, 20_000);
    assert_eq!(
        discard_tensor_pages(&info, 100_000),
        Some(ByteRange { start: 4096, end: 28_672 })
    );
    assert_eq!(
        discard_tensor_pages(&info, 26_000),
        Some(ByteRange { start: 4096, end: 26_000 })
    );
    assert_eq!(
        discard_tensor_byte_range(&info, ByteRange { start: 0, end: 20_000 }, 100_000),
        Some(ByteRange { start: 8192, end: 24_576 })
    );
    assert_eq!(
        discard_tensor_byte_range(&info, ByteRange { start: 0, end: 3000 }, 100_000),
        None
    );
    assert_eq!(
        discard_tensor_byte_range(&info, ByteRange { start: 0, end: 20_001 }, 100_000),
        None
    );
    assert_eq!(
        discard_tensor_byte_range(&info, ByteRange { start: 0, end: 20_000 }, 24_575),
        None
    );
}

#[test]
fn tensors_are_taken_once_and_within_the_file() {
    let slot = PinnedSlot::Target(5);
    let mut weights = source(true, true, false);
    let inside = tensor(0, &[5120], 64, 100);
    assert_eq!(
        weights.lookup(slot, &inside, 164),
        Ok(ByteRange { start: 64, end: 164 })
    );
    assert_eq!(
        weights.lookup(slot, &inside, 164),
        Err(WeightError::ConsumedTwice(slot))
    );
    let beyond = PinnedSlot::Mtp(2);
    assert_eq!(
        weights.lookup(beyond, &inside, 163),
        Err(WeightError::BeyondFile(beyond))
    );
    assert_eq!(
        weights.lookup(beyond, &inside, 164),
        Err(WeightError::ConsumedTwice(beyond))
    );
    let wrapping = tensor(0, &[5120], u64::MAX, 2);
    assert_eq!(
        weights.lookup(PinnedSlot::Mtp(3), &wrapping, 164),
        Err(WeightError::RangeOverflow)
    );
}

#[test]
fn a_load_names_the_first_tensors_it_missed() {
    let mut weights = source(false, false, false);
    let info = tensor(0, &[5120], 0, 4);
    let first = weights.finish(&[], &[]).unwrap_err();
    assert_eq!(first.len(), 16);
    assert_eq!(first[0], PinnedSlot::Target(0));
    assert_eq!(first[15], PinnedSlot::Target(15));
    for index in 0..866 {
        if index != 700 {
            weights.lookup(PinnedSlot::Target(index), &info, 4).unwrap();
        }
    }
    for index in 0..17 {
        weights.lookup(PinnedSlot::Mtp(index), &info, 4).unwrap();
    }
    assert_eq!(
        weights.finish(&[], &[]),
        Err(vec![PinnedSlot::Target(700), PinnedSlot::Mtp(17)])
    );
    assert_eq!(weights.finish(&[700], &[]), Err(vec![PinnedSlot::Mtp(17)]));
    assert_eq!(weights.finish(&[700], &[17]), Ok(()));
}

#[test]
fn native_tensors_are_read_in_row_order() {
    let mut weights = source(true, true, false);
    let plan = weights
        .load_native(PinnedSlot::Target(4), &tensor(0, &[4, 10_240], 8, 16), 100)
        .unwrap();
    assert_eq!(plan.shape, vec![10_240, 4]);
    assert_eq!(plan.bytes, ByteRange { start: 8, end: 24 });
    assert_eq!(
        weights
            .load_native(PinnedSlot::Target(6), &tensor(12, &[4], 0, 4), 100)
            .unwrap_err(),
        WeightError::NotNative
    );
    assert_eq!(
        weights
            .load_native(PinnedSlot::Target(7), &tensor(0, &[1 << 31], 0, 4), 100)
            .unwrap_err(),
        WeightError::DimensionOverflow
    );
}

#[test]
fn embeddings_keep_width_and_vocabulary() {
    let mut weights = source(true, true, false);
    let plan = weights
        .load_embedding(PinnedSlot::Target(2), &tensor(12, &[5120, 248_320], 0, 64), 64)
        .unwrap();
    assert!(plan.affine);
    assert_eq!((plan.embedding_dim, plan.vocab_size, plan.qtype), (5120, 248_320, 12));
    assert_eq!(
        weights.load_embedding(PinnedSlot::Target(3), &tensor(12, &[5120], 0, 64), 64),
        Err(WeightError::NotRankTwo)
    );
    assert_eq!(
        weights.load_embedding(PinnedSlot::Target(4), &tensor(99, &[1, 2], 0, 64), 64),
        Err(WeightError::UnknownQType)
    );
}

#[test]
fn projections_are_kept_as_their_descriptor_says() {
    let plan = target_plan();
    let gate = target(0, LayerTensor::MlpGate);
    let gate_slot = pinned_slot(gate).unwrap();
    let PinnedSlot::Target(gate_index) = gate_slot else {
        unreachable!()
    };
    let qtype = plan[gate_index].qtype;
    let info = tensor(qtype, &[5120, 17_408], 0, 10);

    let mut weights = source(true, true, true);
    assert_eq!(
        weights.load_linear(gate, PinnedSlot::Target(8), &info, 10, &plan),
        Err(WeightError::M234SlotChanged)
    );
    let kept = weights.load_linear(gate, gate_slot, &info, 10, &plan).unwrap();
    assert_eq!(kept.kind, Qwen35LinearKind::PinnedM234Affine);
    assert_eq!((kept.input, kept.output, kept.qtype), (5120, 17_408, qtype));
    assert_eq!(kept.f16_sidecars, qtype == 13 || qtype == 21);

    let mut plain = source(false, true, false);
    let kept = plain.linear(gate, &info, 10, &plan).unwrap();
    assert_eq!(kept.kind, Qwen35LinearKind::Affine);
    assert!(!kept.f16_sidecars);

    let mut changed = source(true, true, true);
    assert_eq!(
        changed.linear(gate, &tensor(qtype, &[5120, 17_407], 0, 10), 10, &plan),
        Err(WeightError::M234DescriptorChanged)
    );
    assert_eq!(
        changed.linear(TensorSlot::MtpProjection, &tensor(13, &[10_240, 5120], 0, 10), 10, &plan),
        Err(WeightError::M2DescriptorChanged)
    );
    assert_eq!(
        changed.load_linear(
            TensorSlot::MtpProjection,
            PinnedSlot::Mtp(12),
            &tensor(12, &[10_240, 5120], 0, 10),
            10,
            &plan
        ),
        Err(WeightError::M2SlotChanged)
    );
    assert_eq!(
        changed.linear(target(64, LayerTensor::MlpGate), &info, 10, &plan),
        Err(WeightError::Slot(SlotError::OutsideTopology {
            slot: target(64, LayerTensor::MlpGate)
        }))
    );
    let head = tensor(14, &[5120, 248_320], 0, 10);
    assert_eq!(
        changed.linear(TensorSlot::Output, &head, 10, &plan).unwrap().kind,
        Qwen35LinearKind::Gguf
    );
    let output = target(63, LayerTensor::AttentionOutput);
    let kept = changed.linear(output, &tensor(14, &[6144, 5120], 0, 10), 10, &plan).unwrap();
    assert_eq!(kept.kind, Qwen35LinearKind::Q6Dual);
    assert_eq!(kept.q6_shape, Some(Qwen38Q6Shape::K6144N5120));
    assert_eq!(
        changed.linear(TensorSlot::OutputNorm, &tensor(0, &[5120], 0, 10), 10, &plan),
        Err(WeightError::NotPacked)
    );
    let projection = changed_free_projection();
    assert_eq!(projection, Qwen35LinearKind::PinnedM2Affine);
}

fn changed_free_projection() -> Qwen35LinearKind {
    source(true, true, true)
        .linear(
            TensorSlot::MtpProjection,
            &tensor(12, &[10_240, 5120], 0, 10),
            10,
            &target_plan(),
        )
        .unwrap()
        .kind
}

#[test]
fn types_without_a_resident_form_are_refused() {
    let plan = target_plan();
    let mut weights = source(true, true, true);
    let output = target(63, LayerTensor::AttentionOutput);
    assert_eq!(
        weights.linear(output, &tensor(10, &[6144, 5120], 0, 10), 10, &plan),
        Err(WeightError::NoResidentRepresentation)
    );
    assert_eq!(
        weights.linear(target(63, LayerTensor::MlpUp), &tensor(99, &[5120, 17_408], 0, 10), 10, &plan),
        Err(WeightError::UnknownQType)
    );
}

#[test]
fn attention_projections_are_bundled_when_the_plan_shows_the_bundle() {
    let plan = target_plan();
    let (query_type, key_type, value_type) = PINNED_QKV_QTYPES[0];
    let query = tensor(query_type, &[5120, 12_288], 0, 10);
    let key = tensor(key_type, &[5120, 1024], 10, 10);
    let value = tensor(value_type, &[5120, 1024], 20, 10);

    let mut fused = source(true, true, true);
    match fused.qkv(ModelRole::Target, 3, &query, &key, &value, 30, &plan).unwrap() {
        QkvPlan::Bundled { query, key, value } => {
            assert_eq!((query.output, key.output, value.output), (12_288, 1024, 1024));
            assert_eq!(query.kind, Qwen35LinearKind::Affine);
            assert_eq!(value.bytes, ByteRange { start: 20, end: 30 });
        }
        QkvPlan::Separate { .. } => panic!("the bundle was not used"),
    }
    assert_eq!(
        fused.qkv(ModelRole::Target, 3, &query, &key, &value, 30, &plan),
        Err(WeightError::ConsumedTwice(PinnedSlot::Target(49)))
    );

    let mut separate = source(true, false, true);
    assert!(matches!(
        separate.qkv(ModelRole::Target, 3, &query, &key, &value, 30, &plan),
        Ok(QkvPlan::Separate { .. })
    ));

    let mut changed = source(true, true, true);
    let narrow = tensor(query_type, &[5120, 12_287], 0, 10);
    assert_eq!(
        changed.qkv(ModelRole::Target, 3, &narrow, &key, &value, 30, &plan),
        Err(WeightError::QkvDescriptorChanged)
    );
    assert_eq!(
        changed.load_qkv_kv(target(3, LayerTensor::AttentionKey), 44, key_type, &key, 30),
        Err(WeightError::QkvSlotChanged)
    );
    assert!(changed
        .load_qkv_kv(target(3, LayerTensor::AttentionKey), 45, key_type, &key, 30)
        .is_ok());
    let other = tensor(PINNED_QKV_QTYPES[1].0, &[5120, 12_288], 0, 10);
    assert!(changed
        .load_qkv_affine(
            target(7, LayerTensor::AttentionQuery),
            102,
            PINNED_QKV_QTYPES[1].0,
            12_288,
            &other,
            30
        )
        .is_ok());
}

#[test]
fn kernels_follow_the_kind_of_a_projection() {
    assert!(Qwen35LinearKind::Affine.is_affine());
    assert!(!Qwen35LinearKind::PinnedM2Affine.is_affine());
    assert!(Qwen35LinearKind::PinnedM2Affine.is_m2_affine());
    assert!(Qwen35LinearKind::PinnedM234Affine.supports_high_m_sigmoid_gate_f16());
    assert!(Qwen35LinearKind::Gguf.needs_m4_exact_split());
    assert!(!Qwen35LinearKind::Legacy.needs_m4_exact_split());
    assert!(Qwen35LinearKind::Affine
        .supports_qwen38_mlp_carrier_with(Qwen35LinearKind::PinnedM234Affine, true));
    assert!(!Qwen35LinearKind::Affine
        .supports_qwen38_mlp_carrier_with(Qwen35LinearKind::Q6Dual, true));
    assert_eq!(Qwen35LinearKind::PinnedM234Affine.into_affine(), Some(true));
    assert_eq!(Qwen35LinearKind::Legacy.into_affine(), None);
    assert_eq!(
        Qwen35LinearKind::PinnedM2Affine.select_gguf_rows(),
        Some(Qwen35LinearKind::AffineRows)
    );
    assert_eq!(Qwen35LinearKind::Gguf.select_gguf_rows(), Some(Qwen35LinearKind::GgufRows));
    assert_eq!(Qwen35LinearKind::Q6Dual.select_gguf_rows(), None);
}

#[test]
fn load_statistics_add_up_and_keep_the_peak() {
    let mut stats = GgufAffineLoadStats::default();
    let transcode = |source_bytes, resident_bytes, peak_active_bytes, elapsed| TranscodeStats {
        source_bytes,
        resident_bytes,
        peak_active_bytes,
        elapsed,
    };
    stats.record_affine(transcode(10, 20, 30, 5));
    stats.record_affine(transcode(1, 2, 3, 4));
    stats.record_q6(transcode(100, 200, 300, 50));
    assert_eq!((stats.tensors, stats.source_bytes, stats.resident_bytes), (2, 11, 22));
    assert_eq!((stats.peak_active_bytes, stats.elapsed), (30, 9));
    assert_eq!((stats.q6_tensors, stats.q6_source_bytes, stats.q6_dense_bytes), (1, 100, 200));
    assert_eq!((stats.q6_peak_active_bytes, stats.q6_elapsed), (300, 50));
}

#[test]
fn fused_kernels_need_their_switches() {
    let open = |fusion, carrier, available| {
        GgufWeightSource::open_with_features(true, fusion, false, carrier, available, vec![])
    };
    assert!(open(true, true, true).qwen38_fusion_enabled());
    assert!(open(true, true, true).qwen38_mlp_carrier_enabled());
    assert!(!open(true, false, true).qwen38_mlp_carrier_enabled());
    assert!(!open(false, true, true).qwen38_mlp_carrier_enabled());
    assert!(!open(true, true, false).qwen38_fusion_enabled());
}

#[test]
fn tensor_names_do_not_repeat() {
    let tensors = [
        LayerTensor::InputNorm,
        LayerTensor::PostAttentionNorm,
        LayerTensor::AttentionQuery,
        LayerTensor::AttentionQueryNorm,
        LayerTensor::MlpDown,
        LayerTensor::LinearDtBias,
        LayerTensor::LinearA,
    ];
    let mut names = vec![
        TensorSlot::TokenEmbedding.canonical_name(),
        TensorSlot::Output.canonical_name(),
        TensorSlot::OutputNorm.canonical_name(),
        TensorSlot::MtpProjection.canonical_name(),
        TensorSlot::MtpHeadNorm.canonical_name(),
    ];
    for role in [ModelRole::Target, ModelRole::Mtp] {
        for layer in [0, 1, 10, 11, 101] {
            for tensor in tensors {
                names.push(TensorSlot::Layer { role, layer, tensor }.canonical_name());
            }
        }
    }
    let biases = names.iter().filter(|name| !name.ends_with(".weight")).count();
    assert_eq!(biases, 20);
    let count = names.len();
    names.sort();
    names.dedup();
    assert_eq!(names.len(), count);
}
