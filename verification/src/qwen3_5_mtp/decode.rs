//! The speculative decode loop, as decisions between model calls.
//!
//! A generation goes prefill, first token, rounds, final snapshot. A round drafts a block, has
//! the target verify it together with the last emitted token, walks over the verified rows, emits
//! what the walk yields and reconciles both caches. Each method below takes in what the model
//! returned and says what to do next.

use vstd::prelude::*;
use crate::qwen3_5_mtp::draft::round_proposal_count;
use crate::qwen3_5_mtp::emit::{
    declined,
    emission,
    emission_count,
    emission_is_maximal,
    emission_stop,
    emit_walk_tokens,
};
use crate::qwen3_5_mtp::prefill::{checkpoint_lengths_valid, checkpoints_valid, MtpPrefillError};
use crate::qwen3_5_mtp::stats::{
    crosses_interval,
    mtp_round_reaches_cache_clear,
    zero_stats,
    MtpGenerationStats,
    MTP_STATE_MATERIALIZE_INTERVAL,
};
use crate::qwen3_5_mtp::walk::{
    matching_prefix,
    matching_prefix_is_longest,
    truncated,
    GenerationStopReason,
    WalkResult,
};
use crate::tokens::{append_tokens, contains_token, copy_tokens};

verus! {

/// Accepted drafts that the target's cache keeps. When a walk emitted no token beyond the accepted
/// drafts, such as in the round that spends the budget, the last accepted draft plays the part of
/// the bonus token and leaves the cache again.
pub fn target_cache_accepted_count(accepted: usize, emitted: usize) -> (kept: usize)
    ensures
        kept == (if emitted <= accepted && accepted > 0 { accepted - 1 } else { accepted as int }),
{
    if emitted <= accepted {
        accepted.saturating_sub(1)
    } else {
        accepted
    }
}

/// Where a generation stands.
#[derive(Debug, Clone, Copy, PartialEq, Eq, Structural)]
pub enum DecodePhase {
    /// The prompt is prefilled, the first token is missing.
    FirstToken,
    /// The first token was emitted, the receiver's answer is missing.
    FirstAnswer,
    /// Speculative rounds.
    Rounds,
    /// No further token comes.
    Finished,
}

/// What a round starts with.
#[derive(Debug, Clone, Copy, PartialEq, Eq, Structural)]
pub struct RoundRequest {
    /// The last token of the history, not in the caches yet.
    pub bonus: i32,
    /// How many tokens to draft at most.
    pub proposal_count: usize,
    /// Tokens left in the budget.
    pub remaining: usize,
}

/// Where the next round continues from.
#[derive(Debug, Clone, Copy, PartialEq, Eq, Structural)]
pub struct RoundContinuation {
    /// Row of the verified hidden states that precedes the bonus token.
    pub hidden_row: usize,
    pub bonus: i32,
}

/// A snapshot that can be taken straight from the verified rows of a round.
#[derive(Debug, Clone, Copy, PartialEq, Eq, Structural)]
pub struct RoundSnapshot {
    /// Tokens that the target's cache holds.
    pub token_len: usize,
    /// Row of the verified states to keep.
    pub aligned: usize,
}

/// What to do after a walk.
#[derive(Debug, Clone, Copy, PartialEq, Eq, Structural)]
pub struct RoundPlan {
    /// Why the generation ends with this round, if it does.
    pub stop_reason: Option<GenerationStopReason>,
    /// Accepted drafts to roll the target's cache back to; `None` keeps the whole block.
    pub rollback: Option<usize>,
    /// Tokens that the target verified.
    pub verify_len: usize,
    /// Whether the target's caches are to be materialized.
    pub materialize: bool,
    /// Whether the generation ends right after reconciling, without a separate final
    /// snapshot.
    pub ends_here: bool,
    /// The snapshot to return then, for a text prompt.
    pub snapshot: Option<RoundSnapshot>,
    /// Where the next round continues from; `None` once the generation ends.
    pub next: Option<RoundContinuation>,
}

/// Rows that a round leaves in the target's cache.
pub open spec fn kept_rows(plan: RoundPlan) -> int {
    match plan.rollback {
        Some(accepted) => accepted + 1,
        None => plan.verify_len as int,
    }
}

/// Whether a walk can come from verifying `draft` with `remaining` tokens left: accepted drafts
/// come first, at most one token follows, something is emitted and the budget is kept.
pub open spec fn walk_fits(accepted: nat, new_tokens: Seq<i32>, draft: Seq<i32>, remaining: nat) -> bool {
    &&& accepted <= draft.len()
    &&& accepted <= new_tokens.len() <= accepted + 1
    &&& 1 <= new_tokens.len() <= remaining
    &&& new_tokens.take(accepted as int) == draft.take(accepted as int)
}

/// Greedy walks fit their round: verifying a block that is not longer than the budget yields an
/// admissible walk.
pub proof fn speculative_walk_fits(draft: Seq<i32>, target: Seq<i32>, remaining: nat)
    requires
        target.len() > draft.len(),
        1 <= draft.len() <= remaining,
    ensures
        walk_fits(
            matching_prefix(draft, target),
            truncated(target.take(matching_prefix(draft, target) as int + 1), remaining),
            draft,
            remaining,
        ),
{
    matching_prefix_is_longest(draft, target);
    let accepted = matching_prefix(draft, target);
    let new_tokens = truncated(target.take(accepted as int + 1), remaining);
    assert(new_tokens.take(accepted as int) == target.take(accepted as int));
}

/// A speculative generation without a constraint.
#[derive(Debug)]
pub struct MtpDecode {
    pub prompt_tokens: Vec<i32>,
    /// Whether the prompt is text only, so that snapshots can be taken.
    pub text: bool,
    pub continuation_token: Option<i32>,
    pub max_tokens: usize,
    pub block_size: usize,
    pub eos_tokens: Vec<i32>,
    pub generated: Vec<i32>,
    pub history: Vec<i32>,
    pub stop_reason: GenerationStopReason,
    pub stats: MtpGenerationStats,
    pub bonus: i32,
    pub phase: DecodePhase,
}

impl MtpDecode {
    /// The history is the prompt followed by the output, the output keeps the budget and holds no
    /// end-of-sequence token; between rounds the bonus token is the last of the history and the
    /// budget is not spent.
    pub open spec fn wf(&self) -> bool {
        &&& self.prompt_tokens@.len() > 0
        &&& self.block_size >= 2
        &&& self.history@ == self.prompt_tokens@ + self.generated@
        &&& self.generated@.len() <= self.max_tokens
        &&& forall|i: int|
            0 <= i < self.generated@.len() ==> !self.eos_tokens@.contains(
                #[trigger] self.generated@[i],
            )
        &&& self.stats.wf()
        &&& self.continuation_token is Some && self.max_tokens > 0
            ==> self.continuation_token->0 == self.prompt_tokens@.last()
        &&& match self.phase {
            DecodePhase::FirstToken => self.generated@.len() == 0 && self.max_tokens > 0
                && self.stop_reason == GenerationStopReason::MaxTokens,
            DecodePhase::FirstAnswer => self.generated@.len() == 1 && self.bonus
                == self.generated@[0] && self.stop_reason == GenerationStopReason::MaxTokens,
            DecodePhase::Rounds => self.generated@.len() < self.max_tokens && self.bonus
                == self.history@.last() && self.stop_reason == GenerationStopReason::MaxTokens,
            DecodePhase::Finished => true,
        }
    }

    /// What no step changes.
    pub open spec fn same_request(&self, other: &Self) -> bool {
        &&& self.prompt_tokens@ == other.prompt_tokens@
        &&& self.text == other.text
        &&& self.continuation_token == other.continuation_token
        &&& self.max_tokens == other.max_tokens
        &&& self.block_size == other.block_size
        &&& self.eos_tokens@ == other.eos_tokens@
    }

    /// Starts a generation. Without a budget it is finished at once, before any prefill.
    pub fn new(
        prompt_tokens: Vec<i32>,
        text: bool,
        continuation_token: Option<i32>,
        max_tokens: usize,
        block_size: usize,
        eos_tokens: Vec<i32>,
        checkpoint_token_lengths: &[usize],
    ) -> (result: Result<Self, MtpPrefillError>)
        requires
            prompt_tokens@.len() > 0,
            block_size >= 2,
            continuation_token is Some && max_tokens > 0 && checkpoints_valid(
                checkpoint_token_lengths@,
                prompt_tokens@.len(),
            ) ==> continuation_token->0 == prompt_tokens@.last(),
        ensures
            match result {
                Ok(decode) => {
                    &&& checkpoints_valid(checkpoint_token_lengths@, prompt_tokens@.len())
                    &&& decode.wf()
                    &&& decode.prompt_tokens == prompt_tokens
                    &&& decode.text == text
                    &&& decode.continuation_token == continuation_token
                    &&& decode.max_tokens == max_tokens
                    &&& decode.block_size == block_size
                    &&& decode.eos_tokens == eos_tokens
                    &&& decode.generated@ == Seq::<i32>::empty()
                    &&& decode.history@ == prompt_tokens@
                    &&& decode.stop_reason == GenerationStopReason::MaxTokens
                    &&& decode.stats == zero_stats()
                    &&& decode.phase == (if max_tokens == 0 {
                        DecodePhase::Finished
                    } else {
                        DecodePhase::FirstToken
                    })
                },
                Err(error) => error == MtpPrefillError::CheckpointLengths && !checkpoints_valid(
                    checkpoint_token_lengths@,
                    prompt_tokens@.len(),
                ),
            },
    {
        if !checkpoint_lengths_valid(checkpoint_token_lengths, prompt_tokens.len()) {
            return Err(MtpPrefillError::CheckpointLengths);
        }
        let history = copy_tokens(prompt_tokens.as_slice());
        let decode = MtpDecode {
            prompt_tokens,
            text,
            continuation_token,
            max_tokens,
            block_size,
            eos_tokens,
            generated: Vec::new(),
            history,
            stop_reason: GenerationStopReason::MaxTokens,
            stats: MtpGenerationStats::default(),
            bonus: 0,
            phase: if max_tokens == 0 {
                DecodePhase::Finished
            } else {
                DecodePhase::FirstToken
            },
        };
        assert(decode.history@ == decode.prompt_tokens@ + decode.generated@);
        Ok(decode)
    }

    /// Takes in the first token: the continuation token when there is one, else the one sampled
    /// from the prefill. A continuation token is part of the prompt already and is not emitted.
    /// Returns whether the receiver is to be asked about the token.
    pub fn first_token(&mut self, sampled: i32) -> (ask: bool)
        requires
            old(self).wf(),
            old(self).phase == DecodePhase::FirstToken,
            old(self).continuation_token is Some ==> sampled == old(self).continuation_token->0,
        ensures
            final(self).wf(),
            final(self).same_request(old(self)),
            final(self).stats == old(self).stats,
            ({
                if old(self).continuation_token is Some {
                    &&& !ask
                    &&& final(self).phase == DecodePhase::Rounds
                    &&& final(self).bonus == sampled
                    &&& final(self).generated@ == Seq::<i32>::empty()
                    &&& final(self).stop_reason == GenerationStopReason::MaxTokens
                } else if old(self).eos_tokens@.contains(sampled) {
                    &&& !ask
                    &&& final(self).phase == DecodePhase::Finished
                    &&& final(self).generated@ == Seq::<i32>::empty()
                    &&& final(self).stop_reason == GenerationStopReason::Eos
                } else {
                    &&& ask
                    &&& final(self).phase == DecodePhase::FirstAnswer
                    &&& final(self).generated@ == seq![sampled]
                }
            }),
    {
        self.bonus = sampled;
        if self.continuation_token.is_some() {
            self.phase = DecodePhase::Rounds;
            assert(self.history@.last() == self.prompt_tokens@.last());
            return false;
        }
        if contains_token(self.eos_tokens.as_slice(), sampled) {
            self.stop_reason = GenerationStopReason::Eos;
            self.phase = DecodePhase::Finished;
            return false;
        }
        self.generated.push(sampled);
        self.history.push(sampled);
        self.phase = DecodePhase::FirstAnswer;
        assert(self.generated@ == seq![sampled]);
        assert(self.history@ == self.prompt_tokens@ + self.generated@);
        true
    }

    /// Takes in the receiver's answer to the first token. Returns whether rounds follow, for
    /// which the drafter's prefill is to be completed with the first token.
    pub fn first_answer(&mut self, keep_going: bool) -> (rounds: bool)
        requires
            old(self).wf(),
            old(self).phase == DecodePhase::FirstAnswer,
        ensures
            final(self).wf(),
            final(self).same_request(old(self)),
            final(self).stats == old(self).stats,
            final(self).generated@ == old(self).generated@,
            final(self).bonus == old(self).bonus,
            rounds == (keep_going && old(self).max_tokens > 1),
            final(self).phase == (if rounds { DecodePhase::Rounds } else { DecodePhase::Finished }),
            final(self).stop_reason == (if keep_going {
                GenerationStopReason::MaxTokens
            } else {
                GenerationStopReason::CallbackCancelled
            }),
    {
        if !keep_going {
            self.stop_reason = GenerationStopReason::CallbackCancelled;
            self.phase = DecodePhase::Finished;
            return false;
        }
        if self.generated.len() < self.max_tokens {
            self.phase = DecodePhase::Rounds;
            assert(self.history@.last() == self.generated@[0]);
            true
        } else {
            self.phase = DecodePhase::Finished;
            false
        }
    }

    /// What the next round drafts from. At least one token is always asked for.
    pub fn begin_round(&self) -> (request: RoundRequest)
        requires
            self.wf(),
            self.phase == DecodePhase::Rounds,
        ensures
            request.bonus == self.bonus,
            request.remaining == self.max_tokens - self.generated@.len(),
            request.proposal_count == vstd::math::min(
                self.block_size - 1,
                request.remaining as int,
            ),
            1 <= request.proposal_count <= request.remaining,
    {
        let remaining: usize = self.max_tokens - self.generated.len();
        RoundRequest {
            bonus: self.bonus,
            proposal_count: round_proposal_count(self.block_size, remaining),
            remaining,
        }
    }

    /// Takes in that the drafter had nothing to propose: the generation ends.
    pub fn nothing_drafted(&mut self)
        requires
            old(self).wf(),
            old(self).phase == DecodePhase::Rounds,
        ensures
            final(self).wf(),
            final(self).same_request(old(self)),
            final(self).phase == DecodePhase::Finished,
            final(self).stop_reason == GenerationStopReason::MaxTokens,
            final(self).generated@ == old(self).generated@,
            final(self).stats == old(self).stats,
    {
        self.phase = DecodePhase::Finished;
    }

    /// The tokens that the target verifies: the bonus token, then the drafted ones.
    pub fn verify_tokens(&self, draft_tokens: &[i32]) -> (tokens: Vec<i32>)
        ensures
            tokens@ == seq![self.bonus] + draft_tokens@,
    {
        let mut tokens: Vec<i32> = Vec::new();
        tokens.push(self.bonus);
        append_tokens(&mut tokens, draft_tokens);
        assert(tokens@ == seq![self.bonus] + draft_tokens@);
        tokens
    }

    /// How many tokens of a walk the receiver is to be asked about.
    pub fn emitted_by(&self, new_tokens: &[i32]) -> (count: usize)
        requires
            self.wf(),
            self.phase == DecodePhase::Rounds,
        ensures
            count == emission(
                new_tokens@,
                self.eos_tokens@,
                self.generated@.len(),
                self.max_tokens as nat,
            ).0,
    {
        emission_count(
            new_tokens,
            self.eos_tokens.as_slice(),
            self.generated.len(),
            self.max_tokens,
        )
    }

    /// Takes in a walk and the receiver's answers to its emitted tokens, and says how the round
    /// is wrapped up.
    ///
    /// As long as every token of the walk is emitted, the rows left in the target's cache grow
    /// with the history: the cache stays exactly one token behind it.
    pub fn finish_round(&mut self, draft_tokens: &[i32], walk: &WalkResult, answers: &[bool]) -> (plan:
        RoundPlan)
        requires
            old(self).wf(),
            old(self).phase == DecodePhase::Rounds,
            draft_tokens@.len() >= 1,
            walk_fits(
                walk.accepted as nat,
                walk.new_tokens@,
                draft_tokens@,
                (old(self).max_tokens - old(self).generated@.len()) as nat,
            ),
            answers@.len() >= emission(
                walk.new_tokens@,
                old(self).eos_tokens@,
                old(self).generated@.len(),
                old(self).max_tokens as nat,
            ).0,
            old(self).stats.has_room(draft_tokens@.len()),
            old(self).prompt_tokens@.len() + old(self).max_tokens <= usize::MAX,
            draft_tokens@.len() < usize::MAX,
        ensures
            final(self).wf(),
            final(self).same_request(old(self)),
            ({
                let before = old(self).generated@.len();
                let (count, end) = emission(
                    walk.new_tokens@,
                    old(self).eos_tokens@,
                    before,
                    old(self).max_tokens as nat,
                );
                let stop = emission_stop(end, declined(answers@, count));
                let kept = if walk.new_tokens@.len() <= walk.accepted {
                    walk.accepted - 1
                } else {
                    walk.accepted as int
                };
                let materialize = crosses_interval(
                    before,
                    final(self).generated@.len(),
                    MTP_STATE_MATERIALIZE_INTERVAL as nat,
                );
                let ends_here = stop is Some && count == walk.new_tokens@.len();
                &&& final(self).generated@ == old(self).generated@ + walk.new_tokens@.take(
                    count as int,
                )
                &&& final(self).stop_reason == (match stop {
                    Some(reason) => reason,
                    None => GenerationStopReason::MaxTokens,
                })
                &&& final(self).phase == (if stop is Some {
                    DecodePhase::Finished
                } else {
                    DecodePhase::Rounds
                })
                &&& final(self).bonus == (if stop is Some {
                    old(self).bonus
                } else {
                    walk.new_tokens@.last()
                })
                &&& plan == (RoundPlan {
                    stop_reason: stop,
                    rollback: if kept < draft_tokens@.len() {
                        Some(kept as usize)
                    } else {
                        None
                    },
                    verify_len: (draft_tokens@.len() + 1) as usize,
                    materialize,
                    ends_here,
                    snapshot: if ends_here && old(self).text {
                        Some(
                            RoundSnapshot {
                                token_len: (old(self).prompt_tokens@.len() + before + count
                                    - 1) as usize,
                                aligned: walk.accepted,
                            },
                        )
                    } else {
                        None
                    },
                    next: if stop is Some {
                        None
                    } else {
                        Some(
                            RoundContinuation {
                                hidden_row: walk.accepted,
                                bonus: walk.new_tokens@.last(),
                            },
                        )
                    },
                })
                &&& final(self).stats == (MtpGenerationStats {
                    accepted_draft_tokens: (old(self).stats.accepted_draft_tokens
                        + walk.accepted) as usize,
                    proposed_draft_tokens: (old(self).stats.proposed_draft_tokens
                        + draft_tokens@.len()) as usize,
                    target_forward_calls: (old(self).stats.target_forward_calls + 1) as usize,
                    speculative_rounds: (old(self).stats.speculative_rounds + 1) as usize,
                    full_state_materializations: (old(self).stats.full_state_materializations + (
                    if materialize {
                        1int
                    } else {
                        0
                    }) + (if stop is None {
                        1int
                    } else {
                        0
                    })) as usize,
                    cache_snapshot_count: (old(self).stats.cache_snapshot_count + (
                    if stop is None {
                        1int
                    } else {
                        0
                    })) as usize,
                    ..old(self).stats
                })
            }),
            plan.stop_reason is None || plan.ends_here ==> kept_rows(plan) == final(self).history@.len() - old(self).history@.len(),
    {
        let emitted_before: usize = self.generated.len();
        let ghost max = self.max_tokens as nat;
        proof {
            emission_is_maximal(
                walk.new_tokens@,
                self.eos_tokens@,
                self.generated@.len(),
                self.max_tokens as nat,
            );
        }
        let ghost count = emission(
            walk.new_tokens@,
            self.eos_tokens@,
            self.generated@.len(),
            self.max_tokens as nat,
        ).0;
        self.stats.target_forward_calls = self.stats.target_forward_calls + 1;
        self.stats.speculative_rounds = self.stats.speculative_rounds + 1;
        self.stats.record_round(walk.accepted, draft_tokens.len());
        let stop_reason = emit_walk_tokens(
            walk.new_tokens.as_slice(),
            self.eos_tokens.as_slice(),
            self.max_tokens,
            &mut self.generated,
            &mut self.history,
            answers,
        );
        if let Some(reason) = stop_reason {
            self.stop_reason = reason;
        }
        assert(self.history@ == self.prompt_tokens@ + self.generated@);
        let kept: usize = target_cache_accepted_count(walk.accepted, walk.new_tokens.len());
        let rollback: Option<usize> = if kept < draft_tokens.len() {
            Some(kept)
        } else {
            None
        };
        let materialize = mtp_round_reaches_cache_clear(
            emitted_before,
            self.generated.len(),
            MTP_STATE_MATERIALIZE_INTERVAL,
        );
        if materialize {
            self.stats.full_state_materializations = self.stats.full_state_materializations + 1;
        }
        let ends_here = stop_reason.is_some() && self.generated.len() - emitted_before
            == walk.new_tokens.len();
        let snapshot: Option<RoundSnapshot> = if ends_here && self.text {
            Some(
                RoundSnapshot {
                    token_len: self.prompt_tokens.len() + self.generated.len() - 1,
                    aligned: walk.accepted,
                },
            )
        } else {
            None
        };
        let next: Option<RoundContinuation> = if stop_reason.is_some() {
            self.phase = DecodePhase::Finished;
            None
        } else {
            let bonus: i32 = walk.new_tokens[walk.new_tokens.len() - 1];
            self.bonus = bonus;
            self.stats.full_state_materializations = self.stats.full_state_materializations + 1;
            self.stats.cache_snapshot_count = self.stats.cache_snapshot_count + 1;
            assert(count == walk.new_tokens@.len());
            assert(self.history@.last() == bonus);
            Some(RoundContinuation { hidden_row: walk.accepted, bonus })
        };
        RoundPlan {
            stop_reason,
            rollback,
            verify_len: draft_tokens.len() + 1,
            materialize,
            ends_here,
            snapshot,
            next,
        }
    }
}

} // verus!
