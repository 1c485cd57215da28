use qwen_runtime::qwen3_5_weights::slots::ModelRole;
use qwen_runtime::qwen3_5_weights::source::Qwen35LinearKind;
use qwen_runtime::qwen3_next::{
    attention_load, fuse_mlp_input_projections, fused_input_columns, mlp_from_weights,
    parse_qwen38_high_m_fp16_attention, project_output_ranges, AttentionKernel, KVCacheMode,
    LegacyProjection, MlpExecution, MlpFusionDescriptor, Quantization, Qwen3NextAttention,
    Qwen3NextCache, Qwen3NextConfig, RotaryRoute, RowRange, TensorQuantization,
};
use qwen_runtime::qwen4_attention::attention::{
    indexer_position_ids, Qwen4Attention, Qwen4AttentionConfig, Qwen4AttentionRoute,
    Qwen4LayerCache,
};
use qwen_runtime::qwen4_attention::qsa::{
    qsa_ranked_tile, qsa_tiled_topk_block_ids, qsa_topk_block_ids, QsaRoute, Qwen4PrefillPolicy,
    Qwen4QsaIndexer, Qwen4QsaPlan,
};
use qwen_runtime::qwen4_attention::topk::top_k;

/// Scores of every block for every query row: rectified products summed over heads, scaled by the
/// head width and rounded to steps of 1/256.
fn block_scores(
    query: &[f32],
    pooled: &[f32],
    heads: usize,
    queries: usize,
    head_dim: usize,
) -> Vec<Vec<i32>> {
    let blocks = pooled.len() / head_dim;
    (0..queries)
        .map(|row| {
            (0..blocks)
                .map(|block| {
                    let sum: f32 = (0..heads)
                        .map(|head| {
                            let start = (head * queries + row) * head_dim;
                            (0..head_dim)
                                .map(|lane| query[start + lane] * pooled[block * head_dim + lane])
                                .sum::<f32>()
                                .max(0.0)
                        })
                        .sum();
                    let scaled = sum * (1.0 / (head_dim as f32).sqrt());
                    (scaled * 256.0 + 0.5).floor() as i32
                })
                .collect()
        })
        .collect()
}

fn monolithic(scores: &[Vec<i32>], counts: &[i32], topk: usize, blocks: i32) -> Vec<Vec<i32>> {
    scores
        .iter()
        .zip(counts)
        .map(|(row, &count)| {
            let ranked = qsa_ranked_tile(row, 0, blocks, count);
            qsa_topk_block_ids(&ranked, topk, blocks)
        })
        .collect()
}

#[test]
fn qsa_tiled_ranking_matches_monolithic_across_causal_tails_lazy_and_eager() {
    const QUERIES: i32 = 7;
    const BLOCKS: i32 = 11;
    const HEADS: i32 = 2;
    const HEAD_DIM: i32 = 2;
    const TOPK: usize = 3;

    let mut query_values = Vec::new();
    for head in 0..HEADS {
        for row in 0..QUERIES {
            if row == 0 {
                query_values.extend_from_slice(&[0.0, 0.0]);
            } else {
                query_values.extend_from_slice(&[
                    (row - 3) as f32,
                    if head == 0 { (2 - row) as f32 } else { (row - 5) as f32 },
                ]);
            }
        }
    }
    let pooled_values = (0..BLOCKS)
        .flat_map(|block| [(block - 5) as f32, ((block * 3) % 7 - 3) as f32])
        .collect::<Vec<_>>();
    let scores = block_scores(
        &query_values,
        &pooled_values,
        HEADS as usize,
        QUERIES as usize,
        HEAD_DIM as usize,
    );
    let complete_counts = [3, 4, 4, 7, 8, 10, 11];
    let expected = monolithic(&scores, &complete_counts, TOPK, BLOCKS);
    let tiled = qsa_tiled_topk_block_ids(&scores, &complete_counts, TOPK, 3, 4, BLOCKS);
    assert_eq!(tiled, expected);
    assert_eq!(tiled[0], vec![2, 1, 0]);
}

#[test]
fn qsa_tiled_ranking_preserves_relu_and_global_tie_order() {
    let query = [1.0, -1.0, -1.0, -1.0];
    let pooled = [-2.0, -1.0, 0.0, 1.0, 2.0];
    let scores = block_scores(&query, &pooled, 2, 2, 1);
    let complete_counts = [5, 5];
    let whole = monolithic(&scores, &complete_counts, 3, 5);
    let tiled = qsa_tiled_topk_block_ids(&scores, &complete_counts, 3, 1, 2, 5);
    let expected = vec![vec![4, 0, 3], vec![0, 1, 4]];
    assert_eq!(whole, expected);
    assert_eq!(tiled, expected);
}

#[test]
fn top_values_come_out_largest_first() {
    assert_eq!(top_k(&[3, -1, 7, 7, 2], 3), vec![7, 7, 3]);
    assert_eq!(top_k(&[3, -1], 5), vec![3, -1]);
    assert_eq!(top_k(&[], 2), Vec::<i32>::new());
}

#[test]
fn unseen_blocks_rank_last() {
    assert_eq!(qsa_ranked_tile(&[2, 0, 5], 4, 9, 6), vec![24, 5, i32::MIN]);
}

fn indexer() -> Qwen4QsaIndexer {
    Qwen4QsaIndexer::new(1, 1, 2, 4, 4, 2)
}

#[test]
fn summaries_are_rebuilt_from_the_first_incomplete_block() {
    let indexer = indexer();
    let fresh = indexer.plan_summaries(0, 8, None);
    assert_eq!((fresh.key_len, fresh.complete_blocks, fresh.cached_blocks), (8, 2, 0));
    assert_eq!((fresh.raw_start, fresh.raw_end), (0, 8));
    assert_eq!(fresh.positions, vec![0, 4]);

    let appended = indexer.plan_summaries(8, 4, Some(2));
    assert_eq!((appended.raw_start, appended.raw_end), (8, 12));
    assert_eq!(appended.positions, vec![8]);

    // Three tokens were taken back and replaced: the third block is summarised again.
    let replaced = indexer.plan_summaries(9, 3, Some(2));
    assert_eq!((replaced.cached_blocks, replaced.raw_start, replaced.raw_end), (2, 8, 12));

    // A summary of a block that is no longer complete is dropped.
    let shorter = indexer.plan_summaries(9, 2, Some(3));
    assert_eq!((shorter.complete_blocks, shorter.cached_blocks), (2, 2));
    assert!(shorter.positions.is_empty());

    let long = indexer.plan_summaries(0, 65_536, None);
    assert_eq!(long.complete_blocks, 65_536 / 4);
}

#[test]
fn presentation_follows_block_length_and_storage() {
    let indexer = indexer();
    assert_eq!(indexer.plan_route(1, 7, 0, KVCacheMode::Fp8, false), QsaRoute::Dense);
    assert_eq!(indexer.plan_route(1, 1, 7, KVCacheMode::Fp8, false), QsaRoute::Decode);
    assert_eq!(indexer.plan_route(1, 4, 8, KVCacheMode::Fp8, false), QsaRoute::Verify);
    assert_eq!(indexer.plan_route(1, 64, 8, KVCacheMode::Fp8, false), QsaRoute::Prefill);
    assert_eq!(indexer.plan_route(1, 64, 8, KVCacheMode::Fp8, true), QsaRoute::Mask);
    assert_eq!(indexer.plan_route(1, 4, 8, KVCacheMode::Turbo4, false), QsaRoute::Mask);
    assert_eq!(indexer.plan_route(2, 4, 8, KVCacheMode::Fp8, false), QsaRoute::Mask);
    assert_eq!(indexer.plan_route(1, 8, 0, KVCacheMode::Fp8, false), QsaRoute::Mask);
}

#[test]
fn a_decoded_row_sees_its_best_block_and_its_tail() {
    let indexer = indexer();
    let mut policy = Qwen4PrefillPolicy::default();
    // Ten tokens: two complete blocks, the first scores higher.
    let plan = indexer.plan(1, 1, 9, KVCacheMode::Fp8, &mut policy, &vec![vec![9, 4]]);
    match plan {
        Some(Qwen4QsaPlan::DecodeIndices(tokens)) => {
            assert_eq!(tokens, vec![0, 1, 2, 3, 8, 9]);
        }
        other => panic!("{other:?}"),
    }
    assert!(!policy.approximate_used());
}

#[test]
fn verified_rows_list_their_own_tokens() {
    let indexer = indexer();
    let mut policy = Qwen4PrefillPolicy::default();
    let scores = vec![vec![1, 2, 9], vec![1, 2, 9], vec![1, 2, 9]];
    match indexer.plan(1, 3, 9, KVCacheMode::Fp16, &mut policy, &scores) {
        Some(Qwen4QsaPlan::VerifyIndices(rows)) => {
            assert_eq!(rows.len(), 3);
            assert_eq!(rows[0], vec![4, 5, 6, 7, 8, 9]);
            assert_eq!(rows[1], vec![4, 5, 6, 7, 8, 9, 10]);
            assert_eq!(rows[2], vec![8, 9, 10, 11]);
        }
        other => panic!("{other:?}"),
    }
}

#[test]
fn masks_show_early_rows_everything_before_them() {
    let indexer = indexer();
    let mut policy = Qwen4PrefillPolicy::default();
    let scores = vec![vec![1, 5]; 8];
    match indexer.plan(1, 8, 0, KVCacheMode::Fp8, &mut policy, &scores) {
        Some(Qwen4QsaPlan::Mask(rows)) => {
            assert_eq!(rows.len(), 8);
            for row in 0..7 {
                let seen: Vec<bool> = (0..8).map(|token| token <= row).collect();
                assert_eq!(rows[row], seen);
            }
            let last: Vec<bool> = (0..8).map(|token| token >= 4).collect();
            assert_eq!(rows[7], last);
        }
        other => panic!("{other:?}"),
    }
}

#[test]
fn long_prefills_are_padded_and_remembered_as_approximate() {
    let indexer = indexer();
    let mut policy = Qwen4PrefillPolicy::default();
    let scores = vec![vec![7; 18]; 64];
    match indexer.plan(1, 64, 8, KVCacheMode::Fp8, &mut policy, &scores) {
        Some(Qwen4QsaPlan::PrefillIndices { indices, valid }) => {
            assert_eq!(indices.len(), 64);
            // The row at token 8 keeps the later of two equal blocks, then itself.
            let seen: Vec<i32> = indices[0]
                .iter()
                .zip(&valid[0])
                .filter(|(_, &valid)| valid)
                .map(|(&token, _)| token)
                .collect();
            assert_eq!(seen, vec![4, 5, 6, 7, 8]);
            assert!(indices.iter().all(|row| row.len() == indices[0].len()));
        }
        other => panic!("{other:?}"),
    }
    assert!(policy.approximate_used());
    policy.set_force_reference(true);
    assert!(!policy.approximate_used());
    assert!(matches!(
        indexer.plan(1, 64, 8, KVCacheMode::Fp8, &mut policy, &scores),
        Some(Qwen4QsaPlan::Mask(_))
    ));
    policy.reset();
    assert!(!policy.force_reference);
}

#[test]
fn short_contexts_need_no_selection() {
    let mut policy = Qwen4PrefillPolicy::default();
    let plan = indexer().plan(1, 7, 0, KVCacheMode::Fp8, &mut policy, &vec![vec![3]; 7]);
    assert!(plan.is_none());
}

fn attention_config(indexer_n_heads: usize) -> Qwen4AttentionConfig {
    Qwen4AttentionConfig {
        num_attention_heads: 2,
        num_key_value_heads: 1,
        head_dim: 2,
        rope_dims: 2,
        quantization: None,
        mrope_section: vec![1, 0, 0],
        indexer_n_heads,
        indexer_kv_heads: 1,
        indexer_head_dim: 2,
        indexer_budget: 9,
        indexer_compress_ratio: 4,
        indexer_rope_dims: 2,
    }
}

#[test]
fn only_centred_checkpoints_have_an_indexer() {
    let with = Qwen4Attention::from_config(&attention_config(1), true);
    assert_eq!(with.indexer.unwrap().block_topk, 2);
    assert!(Qwen4Attention::from_config(&attention_config(1), false).indexer.is_none());
    assert!(Qwen4Attention::from_config(&attention_config(0), true).indexer.is_none());
    assert_eq!(attention_config(0).quant_params("model.layers.0.self_attn.q_proj"), (64, 4));
}

fn route(plan: Option<Qwen4QsaPlan>, rows: i32, mode: KVCacheMode, masked: bool) -> Qwen4AttentionRoute {
    let attention = Qwen4Attention::from_config(&attention_config(1), true);
    let mut offset = 10;
    let pass =
        attention.forward_impl(&plan, rows, 8, &mut offset, mode, true, masked, false, true);
    assert_eq!(offset, 10 + rows);
    assert_eq!(pass.rotary, RotaryRoute::Offset { offset: 10 });
    assert_eq!((pass.gate_start, pass.gate_end, pass.capture_query), (2, 8, true));
    pass.route
}

#[test]
fn sparse_plans_choose_the_attention_kernel() {
    let lists = || Some(Qwen4QsaPlan::VerifyIndices(vec![vec![0], vec![0, 1]]));
    let prefill = || {
        Some(Qwen4QsaPlan::PrefillIndices { indices: vec![vec![0]], valid: vec![vec![true]] })
    };
    let decode = || Some(Qwen4QsaPlan::DecodeIndices(vec![0]));
    let fp8 = KVCacheMode::Fp8;
    assert_eq!(route(lists(), 2, fp8, true), Qwen4AttentionRoute::VerifyRows { rows: 2 });
    assert_eq!(route(prefill(), 64, fp8, false), Qwen4AttentionRoute::SparsePrefillRawFp8);
    assert_eq!(
        route(prefill(), 64, KVCacheMode::Fp16, false),
        Qwen4AttentionRoute::SparsePrefill
    );
    assert_eq!(route(prefill(), 64, fp8, true), Qwen4AttentionRoute::CallerMask);
    assert_eq!(route(decode(), 1, fp8, false), Qwen4AttentionRoute::SelectedDecode);
    assert_eq!(
        route(Some(Qwen4QsaPlan::Mask(vec![])), 3, fp8, true),
        Qwen4AttentionRoute::PlanMask
    );
    assert_eq!(route(None, 3, fp8, false), Qwen4AttentionRoute::Causal);
    assert_eq!(route(None, 1, fp8, false), Qwen4AttentionRoute::Unmasked);
}

#[test]
fn indexer_positions_repeat_per_axis_and_sequence() {
    assert_eq!(indexer_position_ids(&[4, 8], 1), vec![4, 8, 4, 8, 4, 8]);
    assert_eq!(indexer_position_ids(&[3], 2), vec![3; 6]);
    assert_eq!(Qwen4LayerCache::Linear { offset: 5 }.offset(), 5);
    assert_eq!(Qwen3NextCache::Attention { offset: 7 }.offset(), 7);
}

fn quantization() -> Quantization {
    Quantization {
        group_size: 32,
        bits: 4,
        mode: "affine".to_owned(),
        overrides: vec![(
            "model.layers.3.self_attn.o_proj".to_owned(),
            TensorQuantization { group_size: 64, bits: 8 },
        )],
    }
}

fn next_config() -> Qwen3NextConfig {
    Qwen3NextConfig {
        num_attention_heads: 24,
        num_key_value_heads: 4,
        head_dim: 256,
        rope_dims: 64,
        quantization: Some(quantization()),
        mrope_section: vec![11, 11, 10],
    }
}

#[test]
fn attention_weights_use_their_own_quantization() {
    let load = attention_load(&next_config(), ModelRole::Target, 3, true);
    assert_eq!((load.q_group_size, load.q_bits), (32, 4));
    assert_eq!((load.o_group_size, load.o_bits), (64, 8));
    assert_eq!((load.query_heads, load.kv_heads, load.head_dim), (48, 4, 256));
    assert!(load.pinned_qwen38_target);
    let drafter = attention_load(&next_config(), ModelRole::Mtp, 3, true);
    assert!(!drafter.pinned_qwen38_target);
    assert_eq!((drafter.o_group_size, drafter.o_bits), (32, 4));
    assert_eq!(quantization().get_override("model.layers.3.self_attn.q_proj"), None);
}

#[test]
fn fp16_attention_is_off_unless_asked_for() {
    assert!(!parse_qwen38_high_m_fp16_attention(None));
    assert!(parse_qwen38_high_m_fp16_attention(Some("1")));
    assert!(!parse_qwen38_high_m_fp16_attention(Some("0")));
}

#[test]
fn four_rows_are_split_only_where_the_kernel_needs_it() {
    assert_eq!(
        project_output_ranges(3, 4, Qwen35LinearKind::Gguf),
        vec![RowRange { start: 0, end: 3 }, RowRange { start: 3, end: 4 }]
    );
    assert_eq!(
        project_output_ranges(3, 4, Qwen35LinearKind::Affine),
        vec![RowRange { start: 0, end: 4 }]
    );
    assert_eq!(
        project_output_ranges(3, 5, Qwen35LinearKind::Gguf),
        vec![RowRange { start: 0, end: 5 }]
    );
}

fn next_attention() -> Qwen3NextAttention {
    Qwen3NextAttention {
        num_heads: 24,
        num_kv_heads: 4,
        head_dim: 256,
        rope_dims: 64,
        pinned_qwen38_target: true,
        high_m_fp16_attention: true,
    }
}

#[test]
fn segments_cover_a_block_and_move_the_cache() {
    let mut offset = 12;
    let plan = next_attention().forward_impl(
        1,
        4,
        512,
        &mut offset,
        KVCacheMode::Fp16,
        false,
        false,
        false,
    );
    assert_eq!(offset, 16);
    assert!(!plan.half_precision);
    assert_eq!(plan.segments.first().unwrap().rows.start, 0);
    assert_eq!(plan.segments.last().unwrap().rows.end, 4);
    for pair in plan.segments.windows(2) {
        assert_eq!(pair[0].rows.end, pair[1].rows.start);
    }
    let long = next_attention().forward_impl(
        1,
        128,
        512,
        &mut offset,
        KVCacheMode::Turbo4,
        false,
        true,
        true,
    );
    assert_eq!(offset, 144);
    assert!(long.half_precision && long.capture_query);
    assert_eq!(long.rotary, RotaryRoute::PositionIds { rotated: 64, head_dim: 256 });
    assert!(long.segments.iter().all(|segment| matches!(
        segment.kernel,
        AttentionKernel::Turbo4Causal | AttentionKernel::Turbo4
    )));
}

fn legacy(output_rows: i32) -> LegacyProjection {
    LegacyProjection {
        group_size: 64,
        bits: 4,
        mode: 0,
        has_global_scale: false,
        has_group_biases: true,
        has_linear_bias: false,
        output_rows,
    }
}

#[test]
fn feed_forward_projections_are_fused_when_alike() {
    assert_eq!(
        fuse_mlp_input_projections(Some(legacy(96)), Some(legacy(96))),
        MlpExecution::FusedInput { intermediate_size: 96 }
    );
    let other = LegacyProjection { bits: 5, ..legacy(96) };
    assert_eq!(
        fuse_mlp_input_projections(Some(legacy(96)), Some(other)),
        MlpExecution::Separate
    );
    assert_eq!(fuse_mlp_input_projections(Some(legacy(96)), None), MlpExecution::Separate);
    assert_eq!(
        fused_input_columns(96),
        (RowRange { start: 0, end: 96 }, RowRange { start: 96, end: 192 })
    );
}

#[test]
fn fused_feed_forward_blocks_follow_the_plan() {
    let plan = [
        MlpFusionDescriptor { role: ModelRole::Target, layer: 2, all_affine: true },
        MlpFusionDescriptor { role: ModelRole::Mtp, layer: 64, all_affine: true },
    ];
    let pinned = Qwen35LinearKind::PinnedM234Affine;
    let run = |role, layer, fusion, kind| {
        mlp_from_weights(role, layer, fusion, &plan, kind, kind, kind, None, None)
    };
    assert_eq!(
        run(ModelRole::Target, 2, true, pinned),
        MlpExecution::PinnedAffine { gate_m234: true, up_m234: true, down_m234: true }
    );
    assert_eq!(run(ModelRole::Target, 2, false, pinned), MlpExecution::Separate);
    assert_eq!(run(ModelRole::Target, 3, true, pinned), MlpExecution::Separate);
    assert_eq!(
        run(ModelRole::Mtp, 0, true, Qwen35LinearKind::PinnedM2Affine),
        MlpExecution::PinnedM2
    );
}
