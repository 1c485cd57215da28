use qwen_runtime::qwen3_5_mtp::constrained_decode::{
    CacheAction, ConstrainedDecode, ConstrainedPhase,
};
use qwen_runtime::qwen3_5_mtp::constraint::ConstrainedWalk;
use qwen_runtime::qwen3_5_mtp::decode::{DecodePhase, MtpDecode};
use qwen_runtime::qwen3_5_mtp::walk::GenerationStopReason;
use qwen_runtime::text::{
    chars_of, decimal_text, joined, matches_at, normalize, same_text, signed_decimal_text,
    wide_decimal_text,
};
use qwen_runtime::tokens::{append_tokens, contains_token, copy_tokens, same_tokens};

#[test]
fn numbers_are_written_in_decimal_digits() {
    for number in [0usize, 7, 10, 99, 100, 248_320, usize::MAX] {
        let text = decimal_text(number);
        assert_eq!(text, number.to_string());
        assert_eq!(text.parse::<usize>(), Ok(number));
    }
    for number in [i64::MIN, -10, -1, 0, 5, i64::MAX] {
        assert_eq!(signed_decimal_text(number), number.to_string());
    }
    assert_eq!(wide_decimal_text(u64::MAX), u64::MAX.to_string());
}

#[test]
fn settings_are_compared_without_case_and_outer_white_space() {
    let plain = |text: &str| normalize(text).into_iter().collect::<String>();
    assert_eq!(plain(" \tOFF\n"), "off");
    assert_eq!(plain("a b "), "a b");
    assert_eq!(plain("   "), "");
}

#[test]
fn texts_are_joined_and_compared() {
    assert_eq!(joined("a", "", "bc", "d", "ä"), "abcdä");
    assert!(same_text("é", "é"));
    assert!(!same_text("e", "é"));
    assert_eq!(chars_of("aé"), vec!['a', 'é']);
    let text = chars_of("model.layers");
    assert!(matches_at(&text, &chars_of("layers"), 6));
    assert!(!matches_at(&text, &chars_of("layers"), 7));
}

#[test]
fn token_lists_are_searched_and_joined() {
    assert!(contains_token(&[1, 2, 3], 2));
    assert!(!contains_token(&[], 2));
    let mut tokens = copy_tokens(&[1, 2]);
    append_tokens(&mut tokens, &[3]);
    assert!(same_tokens(&tokens, &[1, 2, 3]));
    assert!(!same_tokens(&tokens, &[1, 2]));
}

#[test]
fn a_generation_ends_when_nothing_is_drafted() {
    let mut decode = MtpDecode::new(vec![1, 2], true, Some(2), 4, 2, vec![9], &[1, 2]).unwrap();
    assert!(!decode.first_token(2));
    assert_eq!(decode.phase, DecodePhase::Rounds);
    decode.nothing_drafted();
    assert_eq!(decode.phase, DecodePhase::Finished);
    assert_eq!(decode.stop_reason, GenerationStopReason::MaxTokens);
    assert!(decode.generated.is_empty());
}

fn rewritten(output: Vec<i32>) -> ConstrainedWalk {
    ConstrainedWalk { accepted: 0, new_tokens: vec![], output, rebuild: true, stop_reason: None }
}

#[test]
fn an_emptied_output_starts_over() {
    let mut decode = ConstrainedDecode::new(vec![1, 2], 8, 3, vec![99]);
    assert!(decode.prefill(1));
    assert_eq!(decode.cached_tokens, 1);
    assert_eq!(decode.initial_step(&rewritten(vec![]), false), CacheAction::Keep);
    assert_eq!(decode.phase, ConstrainedPhase::Initial);
    assert!(!decode.prefill(0));
    assert_eq!(decode.initial_step(&rewritten(vec![5, 6]), false), CacheAction::Replay);
    assert_eq!(decode.bonus, 6);
    assert_eq!(decode.finish_round(1, &rewritten(vec![]), false), CacheAction::PrefillPrompt);
    assert_eq!(decode.phase, ConstrainedPhase::Restart);
    assert_eq!(decode.restart_step(&rewritten(vec![7])), CacheAction::Replay);
    assert_eq!((decode.phase, decode.bonus), (ConstrainedPhase::Rounds, 7));
    let cancelled = decode.finish_round(1, &rewritten(vec![7, 8]), true);
    assert_eq!(cancelled, CacheAction::Replay);
    assert_eq!(decode.stop_reason, GenerationStopReason::CallbackCancelled);
    assert_eq!(decode.phase, ConstrainedPhase::Finished);
}
