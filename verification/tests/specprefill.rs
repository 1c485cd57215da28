use qwen_runtime::specprefill::{
    check_topology, dense_prefix_end, key_repeats, select_target_indices, should_activate,
    ScoreError, SpecPrefillConfig, SpecPrefillError, CHUNK_TOKENS, MANDATORY_TAIL_TOKENS,
};

fn with_keep_rate(keep_rate: f32) -> SpecPrefillConfig {
    SpecPrefillConfig { keep_rate_bits: keep_rate.to_bits(), ..Default::default() }
}

/// A key that orders floating point numbers as integers.
fn ordered_key(value: f32) -> i32 {
    let bits = value.to_bits() as i32;
    if bits < 0 {
        bits ^ i32::MAX
    } else {
        bits
    }
}

fn chunk_keys(importance: &[f32]) -> Vec<i32> {
    importance
        .chunks(CHUNK_TOKENS)
        .map(|chunk| ordered_key(chunk.iter().sum::<f32>() / chunk.len() as f32))
        .collect()
}

fn select(importance: &[f32], eligible_start: usize, prompt_len: usize, rate: f32) -> Vec<usize> {
    select_target_indices(&chunk_keys(importance), eligible_start, prompt_len, rate.to_bits())
}

#[test]
fn specprefill_config_validation() {
    assert!(SpecPrefillConfig { min_tokens: 0, ..Default::default() }.validate(10).is_err());
    assert!(with_keep_rate(0.0).validate(10).is_err());
    assert!(with_keep_rate(1.01).validate(10).is_err());
    assert!(SpecPrefillConfig { protected_prefix_tokens: 11, ..Default::default() }
        .validate(10)
        .is_err());
    assert!(SpecPrefillConfig {
        min_tokens: 1,
        keep_rate_bits: 1.0f32.to_bits(),
        protected_prefix_tokens: 10
    }
    .validate(10)
    .is_ok());
}

#[test]
fn threshold_equality_stays_dense() {
    let config = SpecPrefillConfig { min_tokens: 8, ..Default::default() };
    assert!(!should_activate(8, config));
    assert!(should_activate(9, config));
}

#[test]
fn cached_and_protected_prefix_take_the_larger_boundary() {
    let config = SpecPrefillConfig { protected_prefix_tokens: 40, ..Default::default() };
    assert_eq!(dense_prefix_end(20, config), 40);
    assert_eq!(dense_prefix_end(60, config), 60);
}

#[test]
fn partial_final_chunk_and_tail_are_selected() {
    let importance = (0..545).map(|index| index as f32).collect::<Vec<_>>();
    let selected = select(&importance, 10, 555, 0.01);
    assert_eq!(selected.first(), Some(&(555 - MANDATORY_TAIL_TOKENS)));
    assert_eq!(selected.last(), Some(&554));
    assert_eq!(selected.len(), MANDATORY_TAIL_TOKENS);
    assert!(!selected.contains(&(555 - MANDATORY_TAIL_TOKENS - 1)));
}

#[test]
fn mandatory_tail_can_exceed_nominal_budget_and_is_sorted_unique() {
    let importance = vec![0.0; 1024];
    let selected = select(&importance, 7, 1031, 0.01);
    assert!(selected.len() >= MANDATORY_TAIL_TOKENS);
    assert!(selected.windows(2).all(|pair| pair[0] < pair[1]));
    assert_eq!(selected.last(), Some(&1030));
}

#[test]
fn complete_keep_rate_selects_every_eligible_token() {
    let selected = select(&vec![0.0; 65], 35, 100, 1.0);
    assert_eq!(selected, (35..100).collect::<Vec<_>>());
}

#[test]
fn defaults_keep_a_fifth_of_long_prompts() {
    let config = SpecPrefillConfig::default();
    assert_eq!(config.min_tokens, 8192);
    assert_eq!(f32::from_bits(config.keep_rate_bits), 0.2);
    assert_eq!(config.protected_prefix_tokens, 0);
    assert_eq!(config.validate(0), Ok(()));
    let bad = |config: SpecPrefillConfig| config.validate(10).unwrap_err();
    assert_eq!(
        bad(SpecPrefillConfig { min_tokens: 0, ..Default::default() }),
        SpecPrefillError::MinTokensZero
    );
    assert_eq!(bad(with_keep_rate(f32::NAN)), SpecPrefillError::KeepRate);
    assert_eq!(bad(with_keep_rate(-0.5)), SpecPrefillError::KeepRate);
    assert_eq!(
        bad(SpecPrefillConfig { protected_prefix_tokens: 11, ..Default::default() }),
        SpecPrefillError::ProtectedPrefix
    );
}

#[test]
fn the_best_chunks_join_the_tail() {
    // Forty chunks, half of them kept: the second is the best, the first the worst.
    let mut importance = vec![0.0f32; 1280];
    for value in &mut importance[32..64] {
        *value = 9.0;
    }
    for value in &mut importance[0..32] {
        *value = -3.0;
    }
    let selected = select(&importance, 0, 1280, 0.5);
    assert!((32..64).all(|token| selected.contains(&token)));
    assert!((0..32).all(|token| !selected.contains(&token)));
    assert_eq!(selected.len(), 20 * CHUNK_TOKENS + MANDATORY_TAIL_TOKENS);
}

#[test]
fn shares_outside_the_unit_keep_the_tail_or_everything() {
    let importance = vec![1.0f32; 1280];
    for rate in [0.0, -1.0, f32::NAN] {
        assert_eq!(select(&importance, 0, 1280, rate), (768..1280).collect::<Vec<_>>());
    }
    for rate in [1.5, f32::INFINITY] {
        assert_eq!(select(&importance, 0, 1280, rate), (0..1280).collect::<Vec<_>>());
    }
}

#[test]
fn captured_attention_must_match_the_prompt() {
    assert_eq!(check_topology(3, 3), Ok(()));
    assert_eq!(check_topology(2, 3), Err(ScoreError::Topology));
    assert_eq!(key_repeats(1, 24, 4, 100, 100), Ok(6));
    assert_eq!(key_repeats(0, 24, 4, 100, 100), Err(ScoreError::NoQueries));
    assert_eq!(key_repeats(1, 24, 4, 99, 100), Err(ScoreError::CacheTooShort));
    assert_eq!(key_repeats(1, 24, 5, 100, 100), Err(ScoreError::HeadRatio));
}
