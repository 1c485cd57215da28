use qwen_runtime::qwen3_5_mtp::constrained_decode::{
    callback_tokens, CacheAction, ConstrainedDecode, ConstrainedPhase,
};
use qwen_runtime::qwen3_5_mtp::constraint::{
    after_operation, ConstrainedWalk, ConstrainedWalkState, ConstraintCommit, ConstraintError,
    ConstraintMask, TransactionStep, WalkPhase,
};
use qwen_runtime::qwen3_5_mtp::decode::{target_cache_accepted_count, DecodePhase, MtpDecode};
use qwen_runtime::qwen3_5_mtp::draft::{
    round_proposal_count, trim_draft_cache, ConstrainedDraftBlock, DraftBlock, DraftPhase,
    DraftState,
};
use qwen_runtime::qwen3_5_mtp::emit::{emission_count, emit_walk_tokens};
use qwen_runtime::qwen3_5_mtp::prefill::{
    checkpoint_segments, final_chunk_range, prefill_text_with_reuse, replay_plan, shifted_tokens,
    MtpPrefillError, PrefillPlan, ReplayPlan,
};
use qwen_runtime::qwen3_5_mtp::snapshot::{
    MtpPrefixReuse, MtpPromptSnapshot, MtpSnapshotError, PortablePromptSnapshot, SnapshotArray,
};
use qwen_runtime::qwen3_5_mtp::stats::{
    mtp_cache_should_clear, mtp_round_reaches_cache_clear, MtpGenerationStats,
};
use qwen_runtime::qwen3_5_mtp::walk::{
    speculative_walk, stochastic_walk, DraftVerdict, GenerationStopReason, StochasticStep,
    StochasticWalk,
};
use qwen_runtime::qwen3_next::Qwen3NextCache;
use qwen_runtime::qwen4::rollback::rollback_plan;
use qwen_runtime::qwen_mrope_state::MRopeState;
use qwen_runtime::qwen_position::decode_rope_positions;

fn array(shape: &[i32], bytes: usize) -> SnapshotArray {
    SnapshotArray { dtype: 10, shape: shape.to_vec(), bytes: vec![7; bytes] }
}

fn singles(values: &[f32]) -> Vec<u8> {
    values.iter().flat_map(|value| value.to_ne_bytes()).collect()
}

type ArrayFields = (i32, Vec<i32>, Vec<u8>);

fn fields(array: &SnapshotArray) -> ArrayFields {
    (array.dtype, array.shape.clone(), array.bytes.clone())
}

fn portable_fields(
    portable: &PortablePromptSnapshot,
) -> (Option<ArrayFields>, Option<ArrayFields>, i32, ArrayFields, ArrayFields) {
    (
        portable.draft_keys.as_ref().map(fields),
        portable.draft_values.as_ref().map(fields),
        portable.draft_offset,
        fields(&portable.last_hidden),
        fields(&portable.continuation_logits),
    )
}

#[test]
fn mtp_portable_snapshot_round_trips_and_rejects_incomplete_pairs() {
    // One and two in half precision.
    let values = SnapshotArray { dtype: 9, shape: vec![1, 1, 1, 2], bytes: vec![0, 0x3c, 0, 0x40] };
    let single = |numbers: &[f32]| SnapshotArray {
        dtype: 10,
        shape: vec![1, 1, 2],
        bytes: singles(numbers),
    };
    let keys = SnapshotArray {
        dtype: values.dtype,
        shape: values.shape.clone(),
        bytes: values.bytes.clone(),
    };
    let snapshot = MtpPromptSnapshot {
        target_token_len: 2,
        target_nbytes: 8,
        draft_keys: Some(keys),
        draft_values: Some(values),
        draft_offset: 1,
        last_hidden: single(&[3.0, 4.0]),
        continuation_logits: single(&[5.0, 6.0]),
    };
    let expected = snapshot.to_portable();
    assert_eq!(
        expected.draft_values.as_ref().map(fields),
        Some((9, vec![1, 1, 1, 2], vec![0, 0x3c, 0, 0x40]))
    );
    assert_eq!(fields(&expected.last_hidden), (10, vec![1, 1, 2], singles(&[3.0, 4.0])));
    let kept = portable_fields(&expected);
    let restored = MtpPromptSnapshot::from_portable_parts(
        snapshot.target_token_len,
        snapshot.target_nbytes,
        expected.draft_keys,
        expected.draft_values,
        expected.draft_offset,
        expected.last_hidden,
        expected.continuation_logits,
    )
    .expect("restore MTP snapshot");
    assert_eq!(portable_fields(&restored.to_portable()), kept);
    assert_eq!(restored.token_len(), 2);
    assert_eq!(restored.nbytes(), 8 + 4 + 4 + 8 + 8);

    let parts = restored.to_portable();
    assert!(MtpPromptSnapshot::from_portable_parts(
        2,
        8,
        parts.draft_keys,
        None,
        parts.draft_offset,
        parts.last_hidden,
        parts.continuation_logits,
    )
    .is_err());
}

#[test]
fn every_snapshot_error_has_its_input() {
    let parts = |token_len: usize, offset: i32, keys: Option<&[i32]>, values: Option<&[i32]>, hidden: &[i32], logits: &[i32]| {
        MtpPromptSnapshot::from_portable_parts(
            token_len,
            0,
            keys.map(|shape| array(shape, 1)),
            values.map(|shape| array(shape, 1)),
            offset,
            array(hidden, 1),
            array(logits, 1),
        )
        .map(|_| ())
        .expect_err("refused")
    };
    let row = [1, 1, 2];
    let four = [1, 1, 1, 2];
    assert_eq!(parts(0, 0, None, None, &row, &row), MtpSnapshotError::EmptyPrompt);
    assert_eq!(
        parts(i32::MAX as usize + 2, 0, None, None, &row, &row),
        MtpSnapshotError::TokenLengthOverflow
    );
    assert_eq!(parts(2, 0, None, None, &row, &row), MtpSnapshotError::OffsetMismatch);
    assert_eq!(parts(2, 1, None, None, &row, &row), MtpSnapshotError::IncompleteKeyValue);
    assert_eq!(
        parts(2, 1, Some(&four), Some(&row), &row, &row),
        MtpSnapshotError::KeyValueShape
    );
    assert_eq!(
        parts(2, 1, Some(&four), Some(&four), &[1, 2], &row),
        MtpSnapshotError::LastHiddenLayout
    );
    assert_eq!(
        parts(2, 1, Some(&four), Some(&four), &row, &[1, 2, 2]),
        MtpSnapshotError::ContinuationLogitsLayout
    );
}

#[test]
fn captured_snapshots_restore_the_drafter() {
    let mut state = DraftState::new();
    state.prefill_target_chunk(4, None, true);
    assert_eq!(state.capture_prompt_snapshot(5), Some(0));
    let snapshot = MtpPromptSnapshot::from_portable_parts(
        5,
        0,
        Some(array(&[1, 1, 4, 2], 1)),
        Some(array(&[1, 1, 4, 2], 1)),
        4,
        array(&[1, 1, 2], 1),
        array(&[1, 1, 2], 1),
    )
    .expect("snapshot");
    let restored = snapshot.restore_prompt_snapshot(5).expect("restored");
    assert_eq!(restored.cache_offset, 4);
    assert!(!restored.seeded);
    assert_eq!(
        snapshot.restore_prompt_snapshot(4).map(|_| ()),
        Err(MtpSnapshotError::OffsetMismatch)
    );
    let reuse = |cached_tokens, continuation_token| {
        Some(MtpPrefixReuse { snapshot: &snapshot, cached_tokens, continuation_token })
    };
    let prompt = [1, 2, 3, 4, 5, 6];
    assert_eq!(prefill_text_with_reuse(&prompt, &None), Ok(PrefillPlan::Whole));
    assert_eq!(
        prefill_text_with_reuse(&prompt, &reuse(5, None)),
        Ok(PrefillPlan::Suffix { start: 5 })
    );
    assert_eq!(prefill_text_with_reuse(&prompt[..5], &reuse(5, None)), Ok(PrefillPlan::Reuse));
    assert_eq!(prefill_text_with_reuse(&prompt, &reuse(5, Some(6))), Ok(PrefillPlan::Reuse));
    assert_eq!(
        prefill_text_with_reuse(&prompt, &reuse(5, Some(7))),
        Err(MtpPrefillError::ContinuationMismatch)
    );
    assert_eq!(
        prefill_text_with_reuse(&prompt, &reuse(0, None)),
        Err(MtpPrefillError::CachedTokensOutsidePrompt)
    );
    assert_eq!(
        prefill_text_with_reuse(&prompt, &reuse(4, None)),
        Err(MtpPrefillError::Snapshot(MtpSnapshotError::OffsetMismatch))
    );
}

struct RecordingConstraint {
    committed: Vec<i32>,
    phases: usize,
    splice_on: Option<(i32, usize, Vec<i32>, bool)>,
}

impl RecordingConstraint {
    fn mask(&self) -> ConstraintMask {
        if self.committed.len() < self.phases {
            ConstraintMask::Allow
        } else {
            ConstraintMask::Accept
        }
    }

    fn commit(&mut self, token: i32) -> ConstraintCommit {
        self.committed.push(token);
        match &self.splice_on {
            Some((on, backtrack, tokens, accept)) if *on == token => ConstraintCommit {
                backtrack: *backtrack,
                tokens: tokens.clone(),
                accept: *accept,
            },
            _ => ConstraintCommit::token(token),
        }
    }
}

fn recording_constraint(phases: usize) -> RecordingConstraint {
    RecordingConstraint { committed: Vec::new(), phases, splice_on: None }
}

fn largest(row: &[f32]) -> i32 {
    let mut best = 0;
    for (index, value) in row.iter().enumerate() {
        if *value > row[best] {
            best = index;
        }
    }
    best as i32
}

fn greedy_walk(
    draft: &[i32],
    logits: &[&[f32]],
    prompt: &[i32],
    output: &[i32],
    eos: &[i32],
    max_tokens: usize,
    constraint: &mut RecordingConstraint,
) -> ConstrainedWalk {
    let mut state = ConstrainedWalkState::new(
        draft.to_vec(),
        prompt.to_vec(),
        output.to_vec(),
        eos.to_vec(),
        max_tokens,
    );
    loop {
        if let Some(walk) = state.mask(&constraint.mask()).expect("mask") {
            return walk;
        }
        let token = largest(logits[state.current_position()]);
        if let Some(walk) = state.greedy_token(token) {
            return walk;
        }
        let commit = constraint.commit(token);
        if let Some(walk) = state.commit(&commit).expect("commit") {
            return walk;
        }
    }
}

#[test]
fn constrained_greedy_walk_commits_full_partial_and_bonus_paths() {
    let logits: [&[f32]; 3] = [
        &[0.0, 10.0, 0.0, 0.0],
        &[0.0, 0.0, 10.0, 0.0],
        &[0.0, 0.0, 0.0, 10.0],
    ];
    let mut full_constraint = recording_constraint(3);
    let full = greedy_walk(&[1, 2], &logits, &[9], &[], &[], 8, &mut full_constraint);
    assert_eq!(full.accepted, 2);
    assert_eq!(full.output, vec![1, 2, 3]);
    assert_eq!(full_constraint.committed, vec![1, 2, 3]);

    let mut partial_constraint = recording_constraint(3);
    let partial = greedy_walk(&[1, 0], &logits, &[9], &[], &[], 8, &mut partial_constraint);
    assert_eq!(partial.accepted, 1);
    assert_eq!(partial.output, vec![1, 2]);
    assert_eq!(partial_constraint.committed, vec![1, 2]);
}

#[test]
fn constrained_stochastic_rejection_commits_residual_not_proposal() {
    let mut constraint = recording_constraint(2);
    let mut state = ConstrainedWalkState::new(vec![0], vec![9], Vec::new(), Vec::new(), 4);
    assert!(state.mask(&constraint.mask()).expect("mask").is_none());
    assert_eq!(state.current_phase(), WalkPhase::Token);
    assert!(state.stochastic_verdict(Some(1)).is_none());
    assert_eq!(state.current_phase(), WalkPhase::Commit { token: 1, keeps_draft: false });
    let commit = constraint.commit(1);
    let walk = state.commit(&commit).expect("commit").expect("residual constrained walk");
    assert_eq!(walk.accepted, 0);
    assert_eq!(walk.output, vec![1]);
    assert_eq!(constraint.committed, vec![1]);
}

#[test]
fn constrained_backtrack_fast_forward_marks_cache_for_rebuild() {
    let mut constraint = recording_constraint(1);
    constraint.splice_on = Some((1, 1, vec![2, 0], true));
    let walk = greedy_walk(&[], &[&[0.0, 10.0, 0.0]], &[9], &[1], &[], 8, &mut constraint);
    assert_eq!(walk.output, vec![2, 0]);
    assert!(walk.rebuild);
    assert_eq!(walk.stop_reason, Some(GenerationStopReason::ConstraintAccepted));
}

#[test]
fn constrained_eos_is_not_committed_to_parser_or_output() {
    let mut constraint = recording_constraint(1);
    let walk = greedy_walk(&[], &[&[0.0, 0.0, 10.0]], &[9], &[], &[2], 8, &mut constraint);
    assert!(walk.output.is_empty());
    assert!(constraint.committed.is_empty());
    assert_eq!(walk.stop_reason, Some(GenerationStopReason::Eos));
}

#[test]
fn splices_rewrite_the_output_and_may_not_reach_beyond_it() {
    let mut state = ConstrainedWalkState::new(vec![5], vec![9], vec![1, 2], Vec::new(), 8);
    let splice = ConstraintMask::Splice(ConstraintCommit {
        backtrack: 1,
        tokens: vec![7, 8],
        accept: false,
    });
    let walk = state.mask(&splice).expect("mask").expect("spliced walk");
    assert_eq!(walk.output, vec![1, 7, 8]);
    assert!(walk.rebuild);
    assert_eq!(walk.stop_reason, None);
    assert_eq!(callback_tokens(&walk, &[]), vec![8]);

    let mut state = ConstrainedWalkState::new(vec![5], vec![9], vec![1], Vec::new(), 8);
    let beyond = ConstraintMask::Splice(ConstraintCommit {
        backtrack: 2,
        tokens: Vec::new(),
        accept: false,
    });
    assert_eq!(
        state.mask(&beyond).map(|_| ()),
        Err(ConstraintError::BacktrackBeyondOutput)
    );
}

#[test]
fn k_two_k_three_and_budget_clamping_use_verify_block_semantics() {
    assert_eq!(round_proposal_count(2, 8), 1);
    assert_eq!(round_proposal_count(3, 8), 2);
    assert_eq!(round_proposal_count(3, 1), 1);
    assert_eq!(speculative_walk(&[1], &[1, 2], 2).new_tokens, [1, 2]);
    assert_eq!(speculative_walk(&[1, 2], &[1, 2, 3], 3).new_tokens, [1, 2, 3]);
    let clamped = speculative_walk(&[1, 2], &[1, 2, 3], 1);
    assert_eq!(clamped.accepted, 2);
    assert_eq!(clamped.new_tokens, [1]);
}

#[test]
fn final_budget_round_rolls_back_unemitted_bonus() {
    assert_eq!(target_cache_accepted_count(2, 3), 2);
    assert_eq!(target_cache_accepted_count(2, 2), 1);
    assert_eq!(target_cache_accepted_count(0, 1), 0);
}

#[test]
fn stochastic_walk_covers_zero_partial_and_full_acceptance() {
    let reject = stochastic_walk(&[0], &[DraftVerdict::Reject { replacement: 1 }], 0, &[], 1);
    assert_eq!((reject.accepted, reject.new_tokens), (0, vec![1]));

    let partial = stochastic_walk(
        &[1, 0],
        &[DraftVerdict::Accept, DraftVerdict::Reject { replacement: 1 }],
        0,
        &[],
        3,
    );
    assert_eq!((partial.accepted, partial.new_tokens), (1, vec![1, 1]));

    let full = stochastic_walk(&[1], &[DraftVerdict::Accept], 0, &[], 2);
    assert_eq!((full.accepted, full.new_tokens), (1, vec![1, 0]));
}

#[test]
fn a_stochastic_walk_asks_step_by_step() {
    let mut walk = StochasticWalk::new(vec![4, 5], vec![1], vec![99], 8);
    assert!(matches!(walk.next(), StochasticStep::Verify { position: 0 }));
    assert!(walk.verdict(DraftVerdict::Accept).is_none());
    assert_eq!(walk.current_history(), &vec![1, 4]);
    assert!(matches!(walk.next(), StochasticStep::Verify { position: 1 }));
    assert!(walk.verdict(DraftVerdict::Accept).is_none());
    assert!(matches!(walk.next(), StochasticStep::SampleBonus { position: 2 }));
    let done = walk.bonus(6);
    assert_eq!((done.accepted, done.new_tokens), (2, vec![4, 5, 6]));

    let eos = stochastic_walk(
        &[99, 5],
        &[DraftVerdict::Accept, DraftVerdict::Accept],
        6,
        &[99],
        8,
    );
    assert_eq!((eos.accepted, eos.new_tokens), (1, vec![99]));
}

#[test]
fn eos_cancellation_and_rejected_suffixes_only_commit_emitted_tokens() {
    let mut generated = Vec::new();
    let mut history = vec![10, 11];
    let reason = emit_walk_tokens(&[7, 99, 8], &[99], 8, &mut generated, &mut history, &[true; 3]);
    assert_eq!(reason, Some(GenerationStopReason::Eos));
    assert_eq!(generated, [7]);
    assert_eq!(history, [10, 11, 7]);

    let rejected_proposals = [20, 21, 22];
    let mut generated = Vec::new();
    let mut history = vec![10, 11];
    let reason = emit_walk_tokens(&[42], &[], 8, &mut generated, &mut history, &[false]);
    assert_eq!(reason, Some(GenerationStopReason::CallbackCancelled));
    assert_eq!(history, [10, 11, 42]);
    assert!(rejected_proposals.iter().all(|proposal| !history.contains(proposal)));
    assert_eq!(emission_count(&[1, 2, 3], &[3], 6, 8), 2);
}

#[test]
fn rejection_reconciles_target_draft_and_mrope_at_zero_partial_full() {
    let prefix = 10;
    let block_size = 5;
    for accepted in [0, 2, 4] {
        let plan = rollback_plan(prefix + block_size as i32, accepted, block_size);
        assert_eq!(plan.final_offset, prefix + accepted as i32 + 1);
        let attention = prefix + block_size as i32 - plan.trim;
        let caches = [
            Qwen3NextCache::Attention { offset: attention },
            Qwen3NextCache::Linear { offset: plan.final_offset },
        ];
        assert_eq!(caches[0].offset(), plan.final_offset);
        assert_eq!(caches[1].offset(), plan.final_offset);

        let round_appended = block_size - 2;
        let mut draft = prefix + round_appended as i32;
        let kept = trim_draft_cache(&mut draft, round_appended, accepted);
        draft += (accepted - kept + 1) as i32;
        assert_eq!(draft, plan.final_offset);

        let mut mrope = MRopeState::new();
        mrope.restore(plan.final_offset, None, Some(-3));
        assert_eq!(mrope.position(), plan.final_offset);
        assert_eq!(mrope.rope_delta(), Some(-3));
    }
}

#[test]
fn the_drafter_catches_up_with_verified_tokens() {
    let mut state = DraftState::new();
    state.prefill_target_chunk(3, None, true);
    assert!(!state.begin_block());
    state.append_drafted();
    let plan = state.accept_verified_tokens(&[4, 5], 1, &[4, 9], 3);
    assert_eq!(plan.trim, 0);
    assert_eq!(plan.tokens, vec![9]);
    assert_eq!((plan.hidden_start, plan.hidden_end), (1, 2));
    assert_eq!(state.cache_offset, 5);
    assert!(state.seeded);

    let plan = state.accept_verified_tokens(&[4, 5], 7, &[8], 3);
    assert_eq!(plan.tokens, vec![4, 5, 8]);
    assert_eq!((plan.hidden_start, plan.hidden_end), (0, 3));
    assert_eq!(state.cache_offset, 8);
}

#[test]
fn transactions_keep_only_successful_walks() {
    assert_eq!(after_operation(true, true), TransactionStep::Commit);
    assert_eq!(after_operation(true, false), TransactionStep::Rollback);
    assert_eq!(after_operation(false, true), TransactionStep::Rollback);
    assert_eq!(after_operation(false, false), TransactionStep::Rollback);
}

#[test]
fn round_cache_clear_reaches_boundaries_crossed_by_accepted_blocks() {
    assert!(!mtp_round_reaches_cache_clear(0, 3, 4));
    assert!(mtp_round_reaches_cache_clear(3, 6, 4));
    assert!(mtp_round_reaches_cache_clear(7, 12, 4));
    assert!(!mtp_round_reaches_cache_clear(4, 7, 4));
    assert!(!mtp_round_reaches_cache_clear(0, usize::MAX, 0));
}

fn shaped_tensor_bytes(shape: &[u64], bits_per_element: u64) -> u64 {
    let elements = shape.iter().fold(1u64, |product, side| product.saturating_mul(*side));
    elements.saturating_mul(bits_per_element).div_ceil(8)
}

#[test]
fn theoretical_tensor_bytes_cover_packed_model_cache_and_transient_geometry() {
    let packed_model = shaped_tensor_bytes(&[4, 64, 32], 4);
    let kv_cache = 2 * shaped_tensor_bytes(&[4, 2, 128, 16], 4);
    let verify_transient =
        shaped_tensor_bytes(&[1, 3, 64], 16) + shaped_tensor_bytes(&[1, 3, 96], 16);

    assert_eq!(packed_model, 4_096);
    assert_eq!(kv_cache, 16_384);
    assert_eq!(verify_transient, 960);
    assert_eq!(packed_model + kv_cache + verify_transient, 21_440);
}

#[test]
fn watermark_bounds_variable_shape_cache_before_256_token_cadence() {
    let persistent = shaped_tensor_bytes(&[8, 64, 64], 4);
    let bounded_transient = shaped_tensor_bytes(&[1, 3, 64], 16);
    let cache_per_round = shaped_tensor_bytes(&[2, 3, 64], 16);
    let cache_watermark = 4 * cache_per_round;
    let total_budget = persistent + bounded_transient + cache_watermark;

    let cache_at_256_cadence = 86 * cache_per_round;
    assert!(
        persistent + bounded_transient + cache_at_256_cadence > total_budget,
        "a cadence-only 256-token policy must exceed this geometry's budget"
    );

    let mut cached = 0;
    let mut maximum_used = persistent + bounded_transient;
    let mut previous = 0;
    for round in 1..=86 {
        cached += cache_per_round;
        let emitted = round * 3;
        maximum_used = maximum_used.max(persistent + bounded_transient + cached);
        if mtp_cache_should_clear(previous, emitted, 256, cached, cache_watermark) {
            cached = 0;
        }
        previous = emitted;
    }
    assert_eq!(maximum_used, persistent + bounded_transient + cache_watermark);
    assert!(maximum_used <= total_budget);
}

#[test]
fn mtp_round_stats_record_proposals_and_accepted_tokens() {
    let mut stats = MtpGenerationStats::default();
    stats.record_round(2, 2);
    stats.record_round(1, 2);
    assert_eq!(stats.proposed_draft_tokens, 4);
    assert_eq!(stats.accepted_draft_tokens, 3);
    assert_eq!(
        stats.accepted_draft_tokens as f64 / stats.proposed_draft_tokens as f64 * 100.0,
        75.0
    );
    stats.record_cache_clear(3_000_000);
    assert_eq!(stats.cache_clear_count, 1);
    assert_eq!(stats.cache_clear_time, 3_000_000);
}

#[test]
fn multimodal_shift_preserves_chunk_alignment_and_bonus_tail() {
    let embeddings = [1, 20, 2, 30, 3, 4];
    let first = shifted_tokens(&embeddings, 0, 2, None);
    let second = shifted_tokens(&embeddings, 2, 4, None);
    let final_chunk = shifted_tokens(&embeddings, 4, 6, Some(99));
    assert_eq!(first, [20, 2]);
    assert_eq!(second, [30, 3]);
    assert_eq!(final_chunk, [4, 99]);

    let mut synchronized = first;
    synchronized.extend(second);
    synchronized.extend(final_chunk);
    assert_eq!(synchronized, [20, 2, 30, 3, 4, 99]);
    assert_eq!(final_chunk_range(6, 2), Some((4, 5)));
    assert_eq!(final_chunk_range(6, 1), None);
}

#[test]
fn signed_rope_delta_is_retained_for_draft_decode_positions() {
    let mut state = DraftState::new();
    state.cache_offset = 8;
    state.rope_delta = Some(-3);
    let values = decode_rope_positions(state.cache_offset, 2, state.rope_delta.expect("delta"));
    assert_eq!(values, [5, 6, 5, 6, 5, 6]);
}

#[test]
fn a_generation_runs_rounds_until_its_budget() {
    let mut decode = MtpDecode::new(vec![1, 2, 3], true, None, 4, 3, vec![99], &[]).expect("decode");
    assert!(decode.first_token(10));
    assert!(decode.first_answer(true));
    let request = decode.begin_round();
    assert_eq!((request.bonus, request.proposal_count, request.remaining), (10, 2, 3));
    assert_eq!(decode.verify_tokens(&[11, 12]), vec![10, 11, 12]);
    let walk = speculative_walk(&[11, 12], &[11, 20, 21], request.remaining);
    assert_eq!((walk.accepted, walk.new_tokens.clone()), (1, vec![11, 20]));
    assert_eq!(decode.emitted_by(&walk.new_tokens), 2);
    let plan = decode.finish_round(&[11, 12], &walk, &[true, true]);
    assert_eq!(plan.stop_reason, None);
    assert_eq!(plan.rollback, Some(1));
    assert_eq!(decode.generated, vec![10, 11, 20]);
    assert_eq!(decode.history, vec![1, 2, 3, 10, 11, 20]);
    let request = decode.begin_round();
    assert_eq!((request.bonus, request.proposal_count, request.remaining), (20, 1, 1));
    let walk = speculative_walk(&[30], &[30, 31], request.remaining);
    let plan = decode.finish_round(&[30], &walk, &[true]);
    assert_eq!(decode.generated, vec![10, 11, 20, 30]);
    assert_eq!(plan.stop_reason, Some(GenerationStopReason::MaxTokens));
    assert_eq!(decode.phase, DecodePhase::Finished);
    assert_eq!(decode.stop_reason, GenerationStopReason::MaxTokens);
    assert_eq!(decode.stats.accepted_draft_tokens, 2);
    assert_eq!(decode.stats.proposed_draft_tokens, 3);
}

#[test]
fn a_generation_without_budget_or_with_bad_checkpoints_does_not_start() {
    let decode = MtpDecode::new(vec![1], true, None, 0, 2, Vec::new(), &[]).expect("decode");
    assert_eq!(decode.phase, DecodePhase::Finished);
    assert_eq!(
        MtpDecode::new(vec![1], true, None, 4, 2, Vec::new(), &[2]).map(|_| ()),
        Err(MtpPrefillError::CheckpointLengths)
    );
    let mut decode = MtpDecode::new(vec![1], true, None, 4, 2, vec![7], &[]).expect("decode");
    assert!(!decode.first_token(7));
    assert_eq!(decode.stop_reason, GenerationStopReason::Eos);
}

#[test]
fn a_constrained_generation_replays_rewritten_output() {
    let mut decode = ConstrainedDecode::new(vec![1, 2], 8, 3, vec![99]);
    assert!(decode.prefill(0));
    let walk = ConstrainedWalk {
        accepted: 0,
        new_tokens: vec![5],
        output: vec![5],
        rebuild: false,
        stop_reason: None,
    };
    assert_eq!(decode.initial_step(&walk, false), CacheAction::FinishPrefill { first_token: 5 });
    assert_eq!(decode.phase, ConstrainedPhase::Rounds);
    let walk = ConstrainedWalk {
        accepted: 1,
        new_tokens: vec![6, 7],
        output: vec![5, 6, 7],
        rebuild: false,
        stop_reason: None,
    };
    assert_eq!(
        decode.finish_round(2, &walk, false),
        CacheAction::Reconcile { rollback: Some(1), hidden_row: 1 }
    );
    let walk = ConstrainedWalk {
        accepted: 0,
        new_tokens: vec![8],
        output: vec![5, 9],
        rebuild: true,
        stop_reason: None,
    };
    assert_eq!(decode.finish_round(2, &walk, false), CacheAction::Replay);
    assert_eq!(decode.bonus, 9);
    let walk = ConstrainedWalk {
        accepted: 0,
        new_tokens: vec![8],
        output: Vec::new(),
        rebuild: true,
        stop_reason: None,
    };
    assert_eq!(decode.finish_round(2, &walk, false), CacheAction::PrefillPrompt);
    assert_eq!(decode.phase, ConstrainedPhase::Restart);
}

#[test]
fn replays_stop_one_token_before_the_end() {
    assert!(matches!(replay_plan(3, &[]), ReplayPlan::Nothing));
    assert!(matches!(
        replay_plan(3, &[7]),
        ReplayPlan::PromptOnly { first_token: 7, token_len: 3 }
    ));
    match replay_plan(3, &[7, 8, 9]) {
        ReplayPlan::Verify { first_token, verify_tokens, draft_tokens, aligned, token_len, bonus } => {
            assert_eq!(first_token, 7);
            assert_eq!(verify_tokens, vec![7, 8]);
            assert_eq!(draft_tokens, vec![8]);
            assert_eq!((aligned, token_len, bonus), (1, 5, 9));
        }
        other => panic!("{other:?}"),
    }
    let segments = checkpoint_segments(&[2, 4], 1, 5);
    let boundaries: Vec<_> = segments
        .iter()
        .map(|segment| (segment.cached_tokens, segment.token_len, segment.capture))
        .collect();
    assert_eq!(boundaries, vec![(1, 2, true), (2, 4, true), (4, 5, false)]);
}

#[test]
fn draft_blocks_stop_at_eos_and_at_their_size() {
    let mut block = DraftBlock::new(vec![1], vec![99], 2);
    assert!(block.wants_token());
    assert!(block.push(5));
    assert_eq!(block.current_history(), &vec![1, 5]);
    assert!(!block.push(6));
    assert_eq!(block.drafted(), &vec![5, 6]);
    let mut block = DraftBlock::new(vec![1], vec![99], 3);
    assert!(!block.push(99));
    assert_eq!(block.drafted(), &vec![99]);

    let mut block = ConstrainedDraftBlock::new(vec![1], vec![2], vec![99], 2);
    assert_eq!(block.current_history(), &vec![1, 2]);
    block.mask(&ConstraintMask::Allow).expect("mask");
    block.token(5);
    assert_eq!(block.current_phase(), DraftPhase::Commit { token: 5 });
    assert_eq!(block.commit(&ConstraintCommit::token(5)), Ok(true));
    assert_eq!(block.drafted(), &vec![5]);
    block.mask(&ConstraintMask::Accept).expect("mask");
    assert_eq!(block.current_phase(), DraftPhase::Done);
}
