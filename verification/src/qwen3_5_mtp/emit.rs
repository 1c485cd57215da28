//! Handing walk tokens to the receiver of the stream.

use vstd::prelude::*;
use crate::qwen3_5_mtp::walk::GenerationStopReason;
use crate::tokens::contains_token;

verus! {

/// Why emission of a walk's tokens ended.
#[derive(Debug, Clone, Copy, PartialEq, Eq, Structural)]
pub enum EmissionEnd {
    /// The next token is an end-of-sequence token.
    Eos,
    /// The budget is spent.
    Budget,
    /// Every token was emitted.
    Exhausted,
}

/// How many leading tokens are emitted on top of `generated` earlier ones, and why no more.
pub open spec fn emission(tokens: Seq<i32>, eos: Seq<i32>, generated: nat, max_tokens: nat) -> (
    nat,
    EmissionEnd,
)
    decreases tokens.len(),
{
    if tokens.len() == 0 {
        (0, EmissionEnd::Exhausted)
    } else if eos.contains(tokens[0]) {
        (0, EmissionEnd::Eos)
    } else if generated + 1 == max_tokens {
        (1, EmissionEnd::Budget)
    } else {
        let (count, end) = emission(tokens.skip(1), eos, generated + 1, max_tokens);
        (1 + count, end)
    }
}

/// The stop reason that an emission leads to. A receiver that declined any of the emitted tokens
/// cancels the generation, whatever else ended it.
pub open spec fn emission_stop(end: EmissionEnd, cancelled: bool) -> Option<GenerationStopReason> {
    if cancelled {
        Some(GenerationStopReason::CallbackCancelled)
    } else {
        match end {
            EmissionEnd::Eos => Some(GenerationStopReason::Eos),
            EmissionEnd::Budget => Some(GenerationStopReason::MaxTokens),
            EmissionEnd::Exhausted => None,
        }
    }
}

/// Whether the receiver declined one of the first `count` tokens.
pub open spec fn declined(answers: Seq<bool>, count: nat) -> bool {
    exists|i: int| 0 <= i < count && !#[trigger] answers[i]
}

/// What `emission` counts: emitted tokens are no end-of-sequence tokens, fit the budget, and the
/// end names what follows them.
pub proof fn emission_is_maximal(tokens: Seq<i32>, eos: Seq<i32>, generated: nat, max_tokens: nat)
    requires
        generated < max_tokens,
    ensures
        ({
            let (count, end) = emission(tokens, eos, generated, max_tokens);
            &&& count <= tokens.len()
            &&& generated + count <= max_tokens
            &&& forall|i: int| 0 <= i < count ==> !eos.contains(#[trigger] tokens[i])
            &&& match end {
                EmissionEnd::Eos => count < tokens.len() && eos.contains(tokens[count as int])
                    && generated + count < max_tokens,
                EmissionEnd::Budget => count > 0 && generated + count == max_tokens,
                EmissionEnd::Exhausted => count == tokens.len() && generated + count < max_tokens,
            }
        }),
    decreases tokens.len(),
{
    if tokens.len() == 0 || eos.contains(tokens[0]) || generated + 1 == max_tokens {
    } else {
        emission_is_maximal(tokens.skip(1), eos, generated + 1, max_tokens);
        let (count, end) = emission(tokens.skip(1), eos, generated + 1, max_tokens);
        assert forall|i: int| 0 <= i < 1 + count implies !eos.contains(#[trigger] tokens[i]) by {
            if i > 0 {
                assert(tokens[i] == tokens.skip(1)[i - 1]);
            }
        }
    }
}

proof fn emission_unfolds(tokens: Seq<i32>, eos: Seq<i32>, generated: nat, max_tokens: nat, k: nat)
    requires
        k < tokens.len(),
    ensures
        emission(tokens.skip(k as int), eos, generated, max_tokens) == (if eos.contains(
            tokens[k as int],
        ) {
            (0nat, EmissionEnd::Eos)
        } else if generated + 1 == max_tokens {
            (1nat, EmissionEnd::Budget)
        } else {
            let (count, end) = emission(tokens.skip(k as int + 1), eos, generated + 1, max_tokens);
            (1 + count, end)
        }),
{
    assert(tokens.skip(k as int).skip(1) == tokens.skip(k as int + 1));
}

/// Number of tokens that a walk emits on top of `generated` earlier ones. The receiver is asked
/// about exactly these, in order.
pub fn emission_count(tokens: &[i32], eos_tokens: &[i32], generated: usize, max_tokens: usize) -> (
    count: usize)
    requires
        generated < max_tokens,
    ensures
        count == emission(tokens@, eos_tokens@, generated as nat, max_tokens as nat).0,
{
    let mut count: usize = 0;
    assert(tokens@.skip(0) == tokens@);
    while count < tokens.len()
        invariant
            count <= tokens@.len(),
            generated + count < max_tokens,
            emission(tokens@, eos_tokens@, generated as nat, max_tokens as nat).0 == count
                + emission(
                tokens@.skip(count as int),
                eos_tokens@,
                (generated + count) as nat,
                max_tokens as nat,
            ).0,
        decreases tokens@.len() - count,
    {
        proof {
            emission_unfolds(
                tokens@,
                eos_tokens@,
                (generated + count) as nat,
                max_tokens as nat,
                count as nat,
            );
        }
        if contains_token(eos_tokens, tokens[count]) {
            return count;
        }
        count = count + 1;
        if generated + count == max_tokens {
            return count;
        }
    }
    count
}

/// Emits the tokens of a walk: appends them to the output and to the history up to the first
/// end-of-sequence token or the end of the budget. `answers` holds what the receiver said about
/// each emitted token; declining one does not keep the rest of the walk from being emitted.
pub fn emit_walk_tokens(
    tokens: &[i32],
    eos_tokens: &[i32],
    max_tokens: usize,
    generated: &mut Vec<i32>,
    committed_history: &mut Vec<i32>,
    answers: &[bool],
) -> (stop: Option<GenerationStopReason>)
    requires
        old(generated)@.len() < max_tokens,
        answers@.len() >= emission(
            tokens@,
            eos_tokens@,
            old(generated)@.len(),
            max_tokens as nat,
        ).0,
    ensures
        ({
            let (count, end) = emission(
                tokens@,
                eos_tokens@,
                old(generated)@.len(),
                max_tokens as nat,
            );
            &&& final(generated)@ == old(generated)@ + tokens@.take(count as int)
            &&& final(committed_history)@ == old(committed_history)@ + tokens@.take(count as int)
            &&& stop == emission_stop(end, declined(answers@, count))
        }),
{
    let ghost generated_before = generated@;
    let ghost history_before = committed_history@;
    let ghost whole = emission(tokens@, eos_tokens@, generated_before.len(), max_tokens as nat);
    let mut cancelled = false;
    let mut index: usize = 0;
    assert(tokens@.skip(0) == tokens@);
    proof {
        emission_is_maximal(tokens@, eos_tokens@, generated_before.len(), max_tokens as nat);
    }
    while index < tokens.len()
        invariant
            index <= tokens@.len(),
            generated_before == old(generated)@,
            history_before == old(committed_history)@,
            generated_before.len() + index < max_tokens,
            generated@ == generated_before + tokens@.take(index as int),
            committed_history@ == history_before + tokens@.take(index as int),
            cancelled == declined(answers@, index as nat),
            whole == emission(tokens@, eos_tokens@, generated_before.len(), max_tokens as nat),
            whole.0 <= tokens@.len(),
            answers@.len() >= whole.0,
            whole.0 == index + emission(
                tokens@.skip(index as int),
                eos_tokens@,
                (generated_before.len() + index) as nat,
                max_tokens as nat,
            ).0,
            whole.1 == emission(
                tokens@.skip(index as int),
                eos_tokens@,
                (generated_before.len() + index) as nat,
                max_tokens as nat,
            ).1,
        decreases tokens@.len() - index,
    {
        let token: i32 = tokens[index];
        proof {
            emission_unfolds(
                tokens@,
                eos_tokens@,
                (generated_before.len() + index) as nat,
                max_tokens as nat,
                index as nat,
            );
        }
        if contains_token(eos_tokens, token) {
            return Some(
                if cancelled {
                    GenerationStopReason::CallbackCancelled
                } else {
                    GenerationStopReason::Eos
                },
            );
        }
        generated.push(token);
        committed_history.push(token);
        if !answers[index] {
            cancelled = true;
        }
        proof {
            assert(tokens@.take(index + 1) == tokens@.take(index as int).push(token));
            if declined(answers@, index as nat) {
                let i = choose|i: int| 0 <= i < index && !#[trigger] answers@[i];
                assert(!answers@[i]);
            }
            if declined(answers@, (index + 1) as nat) {
                let i = choose|i: int| 0 <= i < index + 1 && !#[trigger] answers@[i];
                assert(i < index || i == index);
            }
            assert(cancelled == declined(answers@, (index + 1) as nat));
        }
        index = index + 1;
        if generated.len() == max_tokens {
            return Some(
                if cancelled {
                    GenerationStopReason::CallbackCancelled
                } else {
                    GenerationStopReason::MaxTokens
                },
            );
        }
    }
    if cancelled {
        Some(GenerationStopReason::CallbackCancelled)
    } else {
        None
    }
}

} // verus!
