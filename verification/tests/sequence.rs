use qwen_runtime::binary64::Double;
use qwen_runtime::qwen3_next::{LegacyProjection, RowRange};
use qwen_runtime::qwen4::chunks::{append_ple_conv_state, microchunk_ranges};
use qwen_runtime::qwen4::compact::{
    compact_head, compact_logit_width, compact_rows, map_draft_token, map_mtp_verify_token,
    project_compact_logits, project_logits, project_verify_logits, HeadWeight, MTP_DRAFT_PADDED,
    MTP_DRAFT_PREFIX, MTP_VERIFY_PADDED, MTP_VERIFY_PREFIX, Projection,
};
use qwen_runtime::qwen4::gated_delta::{fuse_gated_aux_projections, Qwen4GatedDeltaNet};
use qwen_runtime::qwen4::moe::canonicalize_expert_selection;
use qwen_runtime::qwen4::ple::{ple_shifted_tokens, PleError, Qwen4Ple};
use qwen_runtime::qwen4::prefill::{
    begin_prefill, decode_positions, finish_prefill, last_row, prefill_ranges, suffix_capacity,
    EmptyPrompt,
};
use qwen_runtime::qwen4::primes::{find_nth_prime_after, is_prime, nth_prime_after, splitmix64};
use qwen_runtime::qwen4::restore::{
    eos_token_ids, RestoreProblem, RestoredLayer, StateSnapshot,
};
use qwen_runtime::qwen4::rollback::{
    rollback_mtp_verify_to_retained_inputs, rollback_plan, rollback_plan_for_retained_inputs,
    GdnRollbackSnapshot, LayerShape, Qwen4RollbackPlan,
};
use qwen_runtime::qwen4::state::{
    snapshot_family, snapshot_sequence_state, LayerState, LiveLayer, SnapshotPlan, StateTensor,
    Tensor,
};
use qwen_runtime::qwen4::state_names::{
    is_allowed_in_layer, layer_part_name, LayerKind, LayerPart,
};
use qwen_runtime::qwen4_attention::attention::Qwen4LayerCache;
use qwen_runtime::qwen_rope_state::{NothingPrepared, RopeState};

#[test]
fn batched_expert_selection_matches_sequential_row_order() {
    let indices = [[7, 2, 5], [3, 4, 1]];
    let scores = [[0.7f32, 0.2, 0.5], [0.3, 0.4, 0.1]];
    let expected_indices = [[2, 5, 7], [1, 3, 4]];
    let expected_scores = [[0.2f32, 0.5, 0.7], [0.1, 0.3, 0.4]];
    for row in 0..2 {
        let chosen: Vec<(i32, u32)> = indices[row]
            .iter()
            .zip(&scores[row])
            .map(|(&index, score)| (index, score.to_bits()))
            .collect();
        let sorted = canonicalize_expert_selection(&chosen);
        let numbers: Vec<i32> = sorted.iter().map(|chosen| chosen.0).collect();
        let weights: Vec<f32> = sorted.iter().map(|chosen| f32::from_bits(chosen.1)).collect();
        assert_eq!(numbers, expected_indices[row]);
        assert_eq!(weights, expected_scores[row]);
    }
}

#[test]
fn batched_ple_tail_matches_sequential_dispatches_at_materialization_boundary() {
    const STATE_LEN: usize = 6;
    const SEQUENCE: usize = 4;
    let initial = vec![1, 2, 3, 4, 5, 6];
    let rows = [7, 8, 9, 10];

    let (_, batched) = append_ple_conv_state(&initial, &rows, STATE_LEN);
    let mut sequential = initial;
    for row in 0..SEQUENCE {
        let (_, tail) = append_ple_conv_state(&sequential, &rows[row..row + 1], STATE_LEN);
        sequential = tail;
    }
    assert_eq!(batched, sequential);
    assert_eq!(batched, vec![5, 6, 7, 8, 9, 10]);
}

/// A dilated convolution, channel by channel, whose activation is added to `gated`. `input` lists
/// the rows that are read, by number.
fn convolved(
    input: &[i32],
    rows: &[[f32; 2]],
    gated: &[[f32; 2]],
    weight: &[[f32; 3]; 2],
    dilation: usize,
) -> Vec<[f32; 2]> {
    let mut output = Vec::new();
    for (at, gate) in gated.iter().enumerate() {
        let mut row = *gate;
        for (channel, value) in row.iter_mut().enumerate() {
            let mut sum = 0.0f32;
            for (tap, factor) in weight[channel].iter().enumerate() {
                sum += factor * rows[input[at + tap * dilation] as usize][channel];
            }
            *value += sum / (1.0 + (-sum).exp());
        }
        output.push(row);
    }
    output
}

#[test]
fn ple_convolution_microchunks_preserve_output_and_uneven_tail() {
    const SEQUENCE: usize = 7;
    const CHANNELS: usize = 2;
    const STATE_LEN: usize = 4;
    let state = [[0.1f32, -0.2], [0.3, -0.4], [0.5, -0.6], [0.7, -0.8]];
    let gated_at = |index: usize| 0.03 * (index as f32 - 5.0);
    let normed_at = |index: usize| 0.02 * (((index * 3) % 11) as f32 - 5.0);
    let gated: Vec<[f32; 2]> = (0..SEQUENCE)
        .map(|row| [gated_at(row * CHANNELS), gated_at(row * CHANNELS + 1)])
        .collect();
    let mut rows: Vec<[f32; 2]> = state.to_vec();
    rows.extend(
        (0..SEQUENCE).map(|row| [normed_at(row * CHANNELS), normed_at(row * CHANNELS + 1)]),
    );
    let weight = [[0.2, -0.1, 0.05], [-0.15, 0.25, 0.1]];
    let numbers: Vec<i32> = (0..rows.len() as i32).collect();
    let (carried, new) = numbers.split_at(STATE_LEN);

    let (input, reference_tail) = append_ple_conv_state(carried, new, STATE_LEN);
    let reference = convolved(&input, &rows, &gated, &weight, 2);

    let mut current = carried.to_vec();
    let mut chunked = Vec::new();
    for chunk in microchunk_ranges(SEQUENCE as i32, 3) {
        let (start, end) = (chunk.start as usize, chunk.end as usize);
        let (input, tail) = append_ple_conv_state(&current, &new[start..end], STATE_LEN);
        chunked.extend(convolved(&input, &rows, &gated[start..end], &weight, 2));
        current = tail;
    }
    assert_eq!(chunked, reference);
    assert_eq!(current, reference_tail);
    assert_eq!(current.len(), STATE_LEN);
    assert_eq!(current, vec![7, 8, 9, 10]);
}

#[test]
fn ple_token_history_is_identical_across_uneven_microchunks() {
    const BATCH: usize = 2;
    const SEQUENCE: usize = 7;
    const NGRAM: usize = 4;
    const EOS: i32 = -1;
    let tokens = vec![1, 2, 3, 4, 5, 6, 7, 11, 12, 13, 14, 15, 16, 17];
    let initial_history = vec![EOS, EOS, EOS, 91, 92, 93];
    let (reference_shifted, reference_history) =
        ple_shifted_tokens(&tokens, &initial_history, BATCH, SEQUENCE, NGRAM, EOS);

    let mut history = initial_history;
    let mut shifted_by_row = vec![Vec::new(); BATCH];
    for (start, stop) in [(0, 3), (3, 6), (6, 7)] {
        let mut chunk_tokens = Vec::with_capacity(BATCH * (stop - start));
        for row in 0..BATCH {
            chunk_tokens
                .extend_from_slice(&tokens[row * SEQUENCE + start..row * SEQUENCE + stop]);
        }
        let (shifted, next_history) =
            ple_shifted_tokens(&chunk_tokens, &history, BATCH, stop - start, NGRAM, EOS);
        for (row, rows) in shifted.chunks_exact((stop - start) * NGRAM).enumerate() {
            shifted_by_row[row].extend_from_slice(rows);
        }
        history = next_history;
    }
    let chunked_shifted = shifted_by_row.into_iter().flatten().collect::<Vec<_>>();
    assert_eq!(chunked_shifted, reference_shifted);
    assert_eq!(history, reference_history);
}

#[test]
fn rollback_plan_can_restore_the_pre_verify_prefix() {
    let plan = rollback_plan_for_retained_inputs(64_004, 0, 4);
    assert_eq!(
        plan,
        Qwen4RollbackPlan { accepted_block_len: 0, trim: 4, final_offset: 64_000 }
    );
}

#[test]
fn looking_back_stops_at_the_end_of_a_text() {
    let (shifted, history) = ple_shifted_tokens(&[5, 9, 6], &[3, 4], 1, 3, 3, 9);
    assert_eq!(shifted, vec![5, 4, 3, 9, 5, 4, 6, 9, 9]);
    assert_eq!(history, vec![9, 6]);
}

#[test]
fn microchunks_cover_a_prompt() {
    let range = |start, end| RowRange { start, end };
    assert_eq!(microchunk_ranges(7, 3), vec![range(0, 3), range(3, 6), range(6, 7)]);
    assert_eq!(microchunk_ranges(6, 3), vec![range(0, 3), range(3, 6)]);
    assert_eq!(prefill_ranges(5, Some(4)), Ok(vec![range(0, 4), range(4, 5)]));
    assert_eq!(prefill_ranges(5, None), Ok(vec![range(0, 5)]));
    assert_eq!(prefill_ranges(0, None), Err(EmptyPrompt));
    assert_eq!(suffix_capacity(10, 5), 15);
    assert_eq!(suffix_capacity(i32::MAX, 5), i32::MAX);
    assert_eq!(last_row(9), range(8, 9));
}

#[test]
fn verification_casts_rows_for_the_requested_head_only() {
    let affine = HeadWeight { affine: true, bfloat16_scales: true };
    let other = HeadWeight { affine: true, bfloat16_scales: false };
    let unscaled = HeadWeight { affine: false, bfloat16_scales: true };
    let compact = Projection::Compact { width: 80_922 };

    let asked = project_verify_logits(true, Some(affine), Some(other));
    assert_eq!((asked.projection, asked.half_rows), (compact, true));
    let plain = project_verify_logits(true, Some(other), Some(affine));
    assert_eq!((plain.projection, plain.half_rows), (compact, false));
    let missing = project_verify_logits(true, None, Some(affine));
    assert_eq!((missing.projection, missing.half_rows), (Projection::Full, false));
    let full = project_verify_logits(false, Some(other), Some(affine));
    assert_eq!((full.projection, full.half_rows), (Projection::Full, true));
    let not_affine = project_verify_logits(false, Some(affine), Some(unscaled));
    assert_eq!((not_affine.projection, not_affine.half_rows), (Projection::Full, false));
    let shared = project_verify_logits(false, Some(affine), None);
    assert_eq!((shared.projection, shared.half_rows), (Projection::Embedding, false));

    assert_eq!(project_logits(true), Projection::Full);
    assert_eq!(
        project_compact_logits(true, false, MTP_DRAFT_PREFIX),
        Projection::Compact { width: 65_562 }
    );
    assert_eq!(project_compact_logits(false, false, MTP_DRAFT_PREFIX), Projection::Embedding);
}

#[test]
fn compact_heads_keep_prefix_and_control_tokens() {
    let parts = compact_rows(MTP_DRAFT_PREFIX, MTP_DRAFT_PADDED);
    let lengths: Vec<i32> = parts.iter().map(|part| part.end - part.start).collect();
    assert_eq!(lengths, vec![65_536, 26, 6]);
    assert_eq!(lengths.iter().sum::<i32>(), MTP_DRAFT_PADDED);
    assert_eq!(compact_rows(MTP_VERIFY_PREFIX, MTP_VERIFY_PADDED)[2].end, 6);
    assert_eq!(compact_logit_width(MTP_DRAFT_PREFIX), 65_562);
    assert_eq!(map_draft_token(65_535), 65_535);
    assert_eq!(map_draft_token(65_536), 248_044);
    assert_eq!(map_draft_token(65_561), 248_069);
    assert_eq!(map_mtp_verify_token(80_895), 80_895);
    assert_eq!(map_mtp_verify_token(80_896), 248_044);
    assert!(compact_head(true, false, 248_320));
    assert!(!compact_head(true, true, 248_320));
    assert!(!compact_head(true, false, 151_936));
}

fn legacy(bits: i32) -> LegacyProjection {
    LegacyProjection {
        group_size: 64,
        bits,
        mode: 0,
        has_global_scale: false,
        has_group_biases: true,
        has_linear_bias: false,
        output_rows: 8,
    }
}

#[test]
fn recurrent_layers_run_long_blocks_in_chunks() {
    let layer = Qwen4GatedDeltaNet::from_config(1, 1, 2, 2, 3, true);
    assert_eq!((layer.key_dim, layer.value_dim, layer.conv_dim), (2, 2, 6));
    let mut offset = 5;
    let chunks = layer.forward_hidden_internal(131, false, &mut offset);
    assert_eq!(offset, 136);
    assert_eq!(chunks.len(), 2);
    assert!(chunks.iter().all(|chunk| !chunk.advance_cache));
    assert_eq!((chunks[1].rows.start, chunks[1].rows.end), (128, 131));
    let whole = layer.forward_hidden_internal(131, true, &mut offset);
    assert_eq!(whole.len(), 1);
    assert!(whole[0].advance_cache);
    assert_eq!(offset, 267);

    let plan = layer.forward_hidden_chunk(1, 4, Some(1), None, Some(2));
    assert!(plan.reuse_conv_state && !plan.reuse_state && !plan.use_mask);
    assert_eq!((plan.value_columns.start, plan.value_columns.end), (4, 6));
    assert_eq!((plan.b_columns.start, plan.a_columns.end), (2, 4));
    assert_eq!((plan.conv_tail.start, plan.conv_tail.end), (4, 6));
    assert!(fuse_gated_aux_projections(Some(legacy(4)), Some(legacy(4)), Some(legacy(4))));
    assert!(!fuse_gated_aux_projections(Some(legacy(4)), Some(legacy(4)), Some(legacy(5))));
    assert!(!fuse_gated_aux_projections(Some(legacy(4)), None, Some(legacy(4))));
}

#[test]
fn primes_follow_a_start() {
    assert!(is_prime(2) && is_prime(97) && is_prime(1_000_003));
    assert!(!is_prime(0) && !is_prime(1) && !is_prime(91) && !is_prime(1_000_001));
    assert_eq!(nth_prime_after(10, 1), 11);
    assert_eq!(nth_prime_after(10, 3), 17);
    assert_eq!(nth_prime_after(1_000_000, 2), 1_000_033);
    assert_eq!(find_nth_prime_after(11, 1), Some(13));
    // First outputs of the generator that is seeded with zero.
    assert_eq!(splitmix64(0), 0xe220_a839_7b1d_cdaf);
    assert_eq!(splitmix64(0x9e37_79b9_7f4a_7c15), 0x6e78_9e6a_a1b9_65f4);
}

#[test]
fn ngram_heads_have_tables_of_their_own() {
    let ple = Qwen4Ple::from_config(3, 2, 10, 100, 1234, Some(9), 4).unwrap();
    assert_eq!(ple.head_sizes, vec![11, 13, 17, 19]);
    assert_eq!(ple.head_offsets, vec![0, 11, 24, 41]);
    assert_eq!(ple.multipliers.len(), 3);
    assert!(ple.multipliers.iter().all(|multiplier| multiplier % 2 == 1));
    assert_eq!(ple.conv_state_len, 9);
    assert_eq!(
        Qwen4Ple::from_config(2, 1, 10, 100, 1, None, 1).unwrap().eos_token_id,
        248_044
    );

    let mut history = vec![];
    let rows = ple.forward_chunk(&[5, 9, 6], 1, 3, &mut history).unwrap();
    assert_eq!(history, vec![9, 6]);
    assert_eq!(rows.len(), 12);
    for token in rows.chunks_exact(4) {
        for (head, row) in token.iter().enumerate() {
            let start = ple.head_offsets[head] as usize;
            assert!((start..start + ple.head_sizes[head] as usize).contains(row));
        }
    }
    let hash = (5u64.wrapping_mul(ple.multipliers[0])) ^ (9u64.wrapping_mul(ple.multipliers[1]));
    assert_eq!(rows[0], (hash % 11) as usize);
    assert_eq!(rows[1], 11 + (hash % 13) as usize);

    let mut chunked = vec![];
    let mut pieces = ple.forward_chunk(&[5, 9], 1, 2, &mut chunked).unwrap();
    pieces.extend(ple.forward_chunk(&[6], 1, 1, &mut chunked).unwrap());
    assert_eq!(pieces, rows);
    assert_eq!(
        ple.forward_chunk(&[1, 2], 1, 3, &mut chunked),
        Err(PleError::TokenShape)
    );
    assert_eq!(chunked, vec![9, 6]);
}

#[test]
fn rollbacks_bring_all_layers_to_one_offset() {
    let mut caches = vec![
        Qwen4LayerCache::Linear { offset: 104 },
        Qwen4LayerCache::Attention { offset: 104 },
    ];
    let layers = [
        LayerShape { is_linear: true, conv_kernel_size: 4 },
        LayerShape { is_linear: false, conv_kernel_size: 1 },
    ];
    let states = [GdnRollbackSnapshot { layer_idx: 0, has_ple: true }];
    let (plan, restores) =
        rollback_mtp_verify_to_retained_inputs(&mut caches, &layers, &states, 2, 4);
    assert_eq!(plan, Qwen4RollbackPlan { accepted_block_len: 2, trim: 2, final_offset: 102 });
    assert_eq!(plan, rollback_plan(104, 1, 4));
    assert_eq!(caches[0], Qwen4LayerCache::Linear { offset: 102 });
    assert_eq!(caches[1], Qwen4LayerCache::Attention { offset: 102 });
    assert_eq!(restores.len(), 1);
    assert_eq!((restores[0].replay_len, restores[0].offset), (2, 102));
    assert_eq!((restores[0].conv_start, restores[0].conv_end), (2, 5));
    assert!(restores[0].restore_ple && restores[0].replay_ple);
}

#[test]
fn recurrent_layers_without_capture_stay_where_they_are() {
    let mut caches = vec![
        Qwen4LayerCache::Attention { offset: 10 },
        Qwen4LayerCache::Linear { offset: 0 },
    ];
    let layers = [
        LayerShape { is_linear: false, conv_kernel_size: 1 },
        LayerShape { is_linear: true, conv_kernel_size: 4 },
    ];
    let (plan, restores) =
        rollback_mtp_verify_to_retained_inputs(&mut caches, &layers, &[], 1, 4);
    assert_eq!(plan.final_offset, 7);
    assert_eq!(caches[0], Qwen4LayerCache::Attention { offset: 7 });
    assert_eq!(caches[1], Qwen4LayerCache::Linear { offset: 0 });
    assert!(restores.is_empty());
}

#[test]
fn rotary_state_moves_from_prompt_to_decoding() {
    let mut rope = RopeState::new();
    assert_eq!(rope.activate_prepared(), Err(NothingPrepared));
    begin_prefill(&mut rope, Some(7), Some(-3));
    assert_eq!((rope.position_ids(), rope.rope_delta()), (Some(7), Some(-3)));
    finish_prefill(&mut rope, 20, Some(7));
    assert_eq!((rope.position(), rope.position_ids(), rope.rope_delta()), (20, None, Some(-3)));
    assert_eq!(decode_positions(&rope, 20, 2), Some(vec![17, 18, 17, 18, 17, 18]));
    begin_prefill(&mut rope, None, None);
    assert_eq!(rope, RopeState::default());
    assert_eq!(decode_positions(&rope, 20, 2), None);
    rope.prepare(4, 1);
    rope.clear_prepared();
    assert_eq!(rope.pending, None);
    rope.restore(8, None, Some(2));
    assert_eq!((rope.position(), rope.rope_delta()), (8, Some(2)));
}

fn tensor(handle: u64, shape: &[i32]) -> StateTensor {
    Tensor { handle: Some(handle), shape: shape.to_vec(), contents: vec![] }
}

fn kinds() -> Vec<LayerKind> {
    vec![
        LayerKind { is_linear: true, has_ple: true },
        LayerKind { is_linear: false, has_ple: false },
    ]
}

fn live(offset: i32, fp8: bool) -> Vec<LiveLayer> {
    vec![
        LayerState::Linear {
            offset,
            conv_state: Some(tensor(1, &[1, 3, 8])),
            state_cache: Some(tensor(2, &[1, 2, 4, 4])),
            ple_conv_state: Some(tensor(3, &[1, 6, 4])),
            ple_token_history: vec![41, 42],
        },
        LayerState::Attention {
            offset,
            fp8,
            tail_start: 16,
            tail_end: 20,
            rollback_horizon: 4,
            block_size: Some(4),
            auxiliary_keys: Some(tensor(4, &[1, 4, 2])),
            block_keys: Some(tensor(5, &[1, 5, 2])),
            keys: Some(tensor(6, &[1, 2, 20, 8])),
            values: Some(tensor(7, &[1, 2, 20, 8])),
        },
    ]
}

fn rope() -> RopeState {
    let mut rope = RopeState::new();
    rope.restore(20, Some(9), Some(-2));
    rope
}

fn saved() -> StateSnapshot {
    snapshot_of(snapshot_sequence_state(&kinds(), &live(20, true), &rope(), 20, None).unwrap())
}

fn snapshot_of(plan: SnapshotPlan) -> StateSnapshot {
    StateSnapshot {
        family: snapshot_family().to_owned(),
        token_len: plan.token_len,
        dense: plan.dense,
        paged: plan.paged.into_iter().map(|paged| (paged.name, Some(paged.tensor))).collect(),
    }
}

#[test]
fn saved_state_names_its_parts() {
    assert_eq!(layer_part_name(12, LayerPart::TailStart), "layer.12.auxiliary_tail_start");
    assert!(is_allowed_in_layer(0, kinds()[0], "layer.0.ple_conv_state"));
    assert!(!is_allowed_in_layer(1, kinds()[0], "layer.0.ple_conv_state"));
    assert!(!is_allowed_in_layer(0, kinds()[0], "layer.0.keys"));
    let plan = snapshot_sequence_state(&kinds(), &live(20, true), &rope(), 20, Some(12)).unwrap();
    let dense: Vec<&str> = plan.dense.iter().map(|entry| entry.0.as_str()).collect();
    assert!(dense.contains(&"meta.layer_count"));
    assert!(dense.contains(&"mrope.position_ids"));
    assert!(dense.contains(&"layer.1.auxiliary_keys"));
    let paged: Vec<(&str, bool)> =
        plan.paged.iter().map(|paged| (paged.name.as_str(), paged.reuse_previous)).collect();
    assert_eq!(
        paged,
        [
            ("layer.1.auxiliary_block_keys", true),
            ("layer.1.keys", true),
            ("layer.1.values", true)
        ]
    );
}

#[test]
fn incomplete_state_is_not_saved() {
    assert!(snapshot_sequence_state(&kinds(), &live(19, true), &rope(), 20, None).is_none());
    assert!(snapshot_sequence_state(&kinds(), &live(20, false), &rope(), 20, None).is_none());
    let mut layers = live(20, true);
    layers.pop();
    assert!(snapshot_sequence_state(&kinds(), &layers, &rope(), 20, None).is_none());
}

#[test]
fn a_saved_sequence_comes_back() {
    let restored = saved().restore_sequence_state(&kinds()).unwrap();
    assert_eq!(restored.token_len, 20);
    assert_eq!(restored.rope_delta, Some(-2));
    assert_eq!(restored.position_ids.as_ref().and_then(|ids| ids.handle), Some(9));
    match &restored.layers[0] {
        RestoredLayer::Linear { offset, conv_state, ple_token_history, .. } => {
            assert_eq!(*offset, 20);
            assert_eq!(conv_state.handle, Some(1));
            assert_eq!(*ple_token_history, vec![41, 42]);
        }
        other => panic!("{other:?}"),
    }
    match &restored.layers[1] {
        RestoredLayer::Attention { keys, values, block_size, tail_start, tail_end, .. } => {
            assert_eq!((keys.handle, values.handle), (Some(6), Some(7)));
            assert_eq!((*block_size, *tail_start, *tail_end), (4, 16, 20));
        }
        other => panic!("{other:?}"),
    }
    assert!(saved().snapshot_truncatable_to(20));
    assert!(!saved().snapshot_truncatable_to(19));
    assert!(saved().restore_sequence_state_truncated(&kinds(), 20).is_ok());
    assert!(matches!(
        saved().restore_sequence_state_truncated(&kinds(), 19),
        Err(RestoreProblem::NotTruncatable)
    ));
    assert_eq!(saved().snapshot_i32("meta.layer_count").unwrap(), 2);
}

fn without(name: &str) -> StateSnapshot {
    let mut snapshot = saved();
    snapshot.dense.retain(|entry| entry.0 != name);
    snapshot.paged.retain(|entry| entry.0 != name);
    snapshot
}

fn with(name: &str, replacement: StateTensor) -> StateSnapshot {
    let mut snapshot = without(name);
    snapshot.dense.push((name.to_owned(), replacement));
    snapshot
}

fn integer(value: i32) -> StateTensor {
    Tensor { handle: None, shape: vec![1], contents: vec![value] }
}

#[test]
fn damaged_snapshots_are_refused_with_a_reason() {
    let refusal = |snapshot: StateSnapshot| {
        format!("{:?}", snapshot.restore_sequence_state(&kinds()).unwrap_err())
    };
    let mut other = saved();
    other.family = "qwen3".to_owned();
    assert_eq!(refusal(other), "Family");
    let mut long = saved();
    long.token_len = i32::MAX as usize + 1;
    assert_eq!(refusal(long), "TokenLength");
    assert_eq!(refusal(without("meta.layer_count")), "MissingField(\"meta.layer_count\")");
    assert_eq!(
        refusal(with("meta.layer_count", tensor(1, &[2]))),
        "NotScalar(\"meta.layer_count\")"
    );
    assert_eq!(refusal(with("meta.layer_count", integer(3))), "LayerCount");
    assert_eq!(refusal(with("layer.7.keys", tensor(1, &[1]))), "Layout");
    assert_eq!(refusal(without("layer.1.keys")), "MissingAttention");
    assert_eq!(refusal(without("layer.1.auxiliary_keys")), "MissingAttention");
    assert_eq!(refusal(with("layer.0.kind", integer(0))), "Variant(0)");
    assert_eq!(refusal(with("layer.1.offset", integer(19))), "Offset(1)");
    assert_eq!(refusal(without("layer.0.conv_state")), "MissingConvState(0)");
    assert_eq!(refusal(without("layer.0.state_cache")), "MissingRecurrentState(0)");
    assert_eq!(refusal(with("layer.0.conv_state", tensor(1, &[3]))), "LinearLayout(0)");
    assert_eq!(refusal(without("layer.0.ple_conv_state")), "MissingPleConvState(0)");
    assert_eq!(refusal(without("layer.0.ple_token_history")), "MissingPleHistory(0)");
    assert_eq!(refusal(with("layer.0.ple_conv_state", tensor(1, &[3]))), "PleLayout(0)");
    assert_eq!(
        refusal(with("layer.1.keys", tensor(6, &[1, 2, 19, 8]))),
        "AttentionLayout(1)"
    );
    assert_eq!(refusal(with("mrope.position", integer(21))), "Position");
    let mut unjoined = saved();
    for entry in &mut unjoined.paged {
        if entry.0 == "layer.1.keys" {
            entry.1 = None;
        }
    }
    assert_eq!(refusal(unjoined), "MissingKeys(1)");
    let mut unjoined = saved();
    for entry in &mut unjoined.paged {
        if entry.0 == "layer.1.values" {
            entry.1 = None;
        }
    }
    assert_eq!(refusal(unjoined), "MissingValues(1)");
}

#[test]
fn single_layers_are_restored_on_their_own() {
    let snapshot = saved();
    assert_eq!(snapshot.open(&kinds()).unwrap(), 20);
    assert!(snapshot.validate_snapshot_tensor_names(&kinds()).is_ok());
    assert!(snapshot.restore_layer(1, kinds()[1], 20).is_ok());
    let (delta, positions) = snapshot.restore_rope(20).unwrap();
    assert_eq!(delta, Some(-2));
    assert!(positions.is_some());
    assert!(matches!(
        without("layer.1.auxiliary_keys").restore_layer(1, kinds()[1], 20),
        Err(RestoreProblem::MissingAuxiliaryKeys(1))
    ));
    assert!(!eos_token_ids().is_empty());
}

/// The number that a significand and an exponent stand for.
fn value_of(double: Double) -> f64 {
    double.significand as f64 * 2f64.powi(double.exponent)
}

#[test]
fn integer_arithmetic_agrees_with_double_precision() {
    let samples = [1u64, 2, 3, 7, 28, 500, 3136, 1_003_520, 4_194_304, 12_345_678, 2_147_483_647];
    for &left in &samples {
        let a = Double::from_integer(left);
        assert_eq!(value_of(a), left as f64);
        assert_eq!(value_of(a.root()), (left as f64).sqrt(), "{left}");
        for &right in &samples {
            let b = Double::from_integer(right);
            let quotient = a.divide(&b);
            assert_eq!(value_of(quotient), left as f64 / right as f64, "{left}/{right}");
            assert_eq!(
                value_of(quotient.multiply(&b)),
                (left as f64 / right as f64) * right as f64
            );
            let exact = left as f64 / right as f64;
            assert_eq!(quotient.floor(), exact.floor() as u32);
            assert_eq!(quotient.ceiling(), exact.ceil() as u32);
            assert_eq!(quotient.round(), exact.round() as u32);
        }
    }
    let large = Double::from_integer(u64::MAX);
    assert_eq!(value_of(large), u64::MAX as f64);
}
