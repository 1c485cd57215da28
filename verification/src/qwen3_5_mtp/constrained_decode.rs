//! The speculative decode loop under a token constraint, as decisions between model calls.
//!
//! A constraint may rewrite the output, even to nothing. The loop therefore starts over from the
//! prompt whenever the output is empty and replays the output through both caches whenever it was
//! rewritten.

use vstd::prelude::*;
use crate::qwen3_5_mtp::constraint::ConstrainedWalk;
use crate::qwen3_5_mtp::draft::round_proposal_count;
use crate::qwen3_5_mtp::stats::{zero_stats, MtpGenerationStats};
use crate::qwen3_5_mtp::walk::GenerationStopReason;
use crate::qwen3_5_mtp::decode::RoundRequest;
use crate::tokens::{append_tokens, contains_token, copy_tokens, same_tokens};

verus! {

/// Where a constrained generation stands.
#[derive(Debug, Clone, Copy, PartialEq, Eq, Structural)]
pub enum ConstrainedPhase {
    /// Prefill the prompt, then take the first constrained step.
    Initial,
    /// Draft, verify and walk.
    Rounds,
    /// A rewrite emptied the output: prefill again and take a first step, in the middle of the
    /// loop.
    Restart,
    Finished,
}

/// How the caches follow a step.
#[derive(Debug, Clone, Copy, PartialEq, Eq, Structural)]
pub enum CacheAction {
    /// Leave them.
    Keep,
    /// Complete the drafter's prefill with the first token.
    FinishPrefill { first_token: i32 },
    /// Prefill the bare prompt.
    PrefillPrompt,
    /// Prefill the prompt and replay the output.
    Replay,
    /// Roll the target back to the accepted drafts where some were refused, then feed the walk's
    /// tokens to the drafter.
    Reconcile { rollback: Option<usize>, hidden_row: usize },
}

/// The tokens to show to the receiver after a step, in order and up to the first one declined: the
/// chosen tokens before an end-of-sequence token, or the last token of the output when a rewrite
/// came without a chosen token.
pub open spec fn shown_tokens(walk: ConstrainedWalk, eos: Seq<i32>) -> Seq<i32> {
    if walk.new_tokens@.len() == 0 {
        if walk.rebuild && walk.output@.len() > 0 {
            seq![walk.output@.last()]
        } else {
            Seq::empty()
        }
    } else {
        before_eos(walk.new_tokens@, eos)
    }
}

/// The tokens before the first end-of-sequence token.
pub open spec fn before_eos(tokens: Seq<i32>, eos: Seq<i32>) -> Seq<i32>
    decreases tokens.len(),
{
    if tokens.len() == 0 || eos.contains(tokens[0]) {
        Seq::empty()
    } else {
        seq![tokens[0]] + before_eos(tokens.skip(1), eos)
    }
}

/// The tokens to show to the receiver after a step.
pub fn callback_tokens(walk: &ConstrainedWalk, eos_tokens: &[i32]) -> (shown: Vec<i32>)
    ensures
        shown@ == shown_tokens(*walk, eos_tokens@),
{
    let mut shown: Vec<i32> = Vec::new();
    if walk.new_tokens.len() == 0 {
        if walk.rebuild && walk.output.len() > 0 {
            shown.push(walk.output[walk.output.len() - 1]);
        }
        assert(shown@ == shown_tokens(*walk, eos_tokens@));
        return shown;
    }
    let ghost tokens = walk.new_tokens@;
    let mut index: usize = 0;
    assert(tokens.skip(0) == tokens);
    assert(shown@ + before_eos(tokens.skip(0), eos_tokens@) == before_eos(tokens, eos_tokens@));
    while index < walk.new_tokens.len()
        invariant
            tokens == walk.new_tokens@,
            walk.new_tokens@.len() > 0,
            index <= tokens.len(),
            shown@ + before_eos(tokens.skip(index as int), eos_tokens@) == before_eos(
                tokens,
                eos_tokens@,
            ),
        decreases tokens.len() - index,
    {
        let token: i32 = walk.new_tokens[index];
        if contains_token(eos_tokens, token) {
            assert(before_eos(tokens.skip(index as int), eos_tokens@) == Seq::<i32>::empty());
            assert(shown@ == before_eos(tokens, eos_tokens@));
            return shown;
        }
        let ghost earlier = shown@;
        shown.push(token);
        proof {
            assert(tokens.skip(index as int).skip(1) == tokens.skip(index + 1));
            assert(earlier.push(token) + before_eos(tokens.skip(index + 1), eos_tokens@)
                == earlier + (seq![token] + before_eos(tokens.skip(index + 1), eos_tokens@)));
        }
        index = index + 1;
    }
    assert(shown@ == before_eos(tokens, eos_tokens@));
    shown
}

/// A speculative generation under a constraint.
#[derive(Debug)]
pub struct ConstrainedDecode {
    pub prompt_tokens: Vec<i32>,
    pub max_tokens: usize,
    pub block_size: usize,
    pub eos_tokens: Vec<i32>,
    pub generated: Vec<i32>,
    pub stop_reason: GenerationStopReason,
    pub stats: MtpGenerationStats,
    /// Prompt tokens that came from a cached prefix.
    pub cached_tokens: usize,
    /// Whether the cached prefix was handed to a prefill already.
    pub prefix_used: bool,
    pub bonus: i32,
    pub phase: ConstrainedPhase,
}

impl ConstrainedDecode {
    /// The output keeps the budget; while rounds go on the budget is not spent and, with any
    /// output at all, the bonus token is its last one.
    pub open spec fn wf(&self) -> bool {
        &&& self.prompt_tokens@.len() > 0
        &&& self.block_size >= 2
        &&& self.generated@.len() <= self.max_tokens
        &&& self.stats.wf()
        &&& match self.phase {
            ConstrainedPhase::Initial => self.max_tokens > 0 && self.generated@.len() == 0
                && self.stop_reason == GenerationStopReason::MaxTokens,
            ConstrainedPhase::Rounds => self.generated@.len() < self.max_tokens
                && self.stop_reason == GenerationStopReason::MaxTokens && (self.generated@.len() > 0
                ==> self.bonus == self.generated@.last()),
            ConstrainedPhase::Restart => self.max_tokens > 0 && self.generated@.len() == 0
                && self.stop_reason == GenerationStopReason::MaxTokens,
            ConstrainedPhase::Finished => true,
        }
    }

    /// What no step changes.
    pub open spec fn same_request(&self, other: &Self) -> bool {
        &&& self.prompt_tokens@ == other.prompt_tokens@
        &&& self.max_tokens == other.max_tokens
        &&& self.block_size == other.block_size
        &&& self.eos_tokens@ == other.eos_tokens@
    }

    /// Starts a generation. Without a budget it is finished at once, before any prefill.
    pub fn new(
        prompt_tokens: Vec<i32>,
        max_tokens: usize,
        block_size: usize,
        eos_tokens: Vec<i32>,
    ) -> (decode: Self)
        requires
            prompt_tokens@.len() > 0,
            block_size >= 2,
        ensures
            decode.wf(),
            decode.prompt_tokens == prompt_tokens,
            decode.max_tokens == max_tokens,
            decode.block_size == block_size,
            decode.eos_tokens == eos_tokens,
            decode.generated@ == Seq::<i32>::empty(),
            decode.stats == zero_stats(),
            decode.stop_reason == GenerationStopReason::MaxTokens,
            decode.cached_tokens == 0,
            !decode.prefix_used,
            decode.phase == (if max_tokens == 0 {
                ConstrainedPhase::Finished
            } else {
                ConstrainedPhase::Initial
            }),
    {
        ConstrainedDecode {
            prompt_tokens,
            max_tokens,
            block_size,
            eos_tokens,
            generated: Vec::new(),
            stop_reason: GenerationStopReason::MaxTokens,
            stats: MtpGenerationStats::default(),
            cached_tokens: 0,
            prefix_used: false,
            bonus: 0,
            phase: if max_tokens == 0 {
                ConstrainedPhase::Finished
            } else {
                ConstrainedPhase::Initial
            },
        }
    }

    /// Records a prefill of the initial phase that found `reused` prompt tokens cached. Only the
    /// first one may be given the cached prefix, which the result tells.
    pub fn prefill(&mut self, reused: usize) -> (may_reuse: bool)
        requires
            old(self).wf(),
            old(self).phase == ConstrainedPhase::Initial,
            old(self).prefix_used ==> reused == 0,
        ensures
            final(self).wf(),
            final(self).same_request(old(self)),
            may_reuse == !old(self).prefix_used,
            final(self).prefix_used,
            final(self).cached_tokens == vstd::math::max(
                old(self).cached_tokens as int,
                reused as int,
            ),
            final(self).generated@ == old(self).generated@,
            final(self).phase == old(self).phase,
            final(self).stats == old(self).stats,
    {
        let may_reuse = !self.prefix_used;
        self.prefix_used = true;
        if self.cached_tokens < reused {
            self.cached_tokens = reused;
        }
        may_reuse
    }

    /// Takes in the first constrained step and whether the receiver declined one of its tokens.
    /// An output that stays empty leads to another prefill.
    pub fn initial_step(&mut self, walk: &ConstrainedWalk, cancelled: bool) -> (action: CacheAction)
        requires
            old(self).wf(),
            old(self).phase == ConstrainedPhase::Initial,
            walk.output@.len() <= old(self).max_tokens,
            walk.stop_reason is None ==> walk.output@.len() < old(self).max_tokens,
        ensures
            final(self).wf(),
            final(self).same_request(old(self)),
            final(self).generated@ == walk.output@,
            final(self).stats == old(self).stats,
            final(self).cached_tokens == old(self).cached_tokens,
            final(self).prefix_used == old(self).prefix_used,
            ({
                if cancelled {
                    &&& action == CacheAction::Keep
                    &&& final(self).phase == ConstrainedPhase::Finished
                    &&& final(self).stop_reason == GenerationStopReason::CallbackCancelled
                } else if walk.stop_reason is Some {
                    &&& action == (if walk.rebuild && walk.output@.len() > 0 {
                        CacheAction::Replay
                    } else {
                        CacheAction::Keep
                    })
                    &&& final(self).phase == ConstrainedPhase::Finished
                    &&& final(self).stop_reason == walk.stop_reason->0
                } else if walk.output@.len() == 0 {
                    &&& action == CacheAction::Keep
                    &&& final(self).phase == ConstrainedPhase::Initial
                } else {
                    &&& action == (if !walk.rebuild && walk.new_tokens@.len() == 1 && walk.output@
                        == walk.new_tokens@ {
                        CacheAction::FinishPrefill { first_token: walk.output@[0] }
                    } else {
                        CacheAction::Replay
                    })
                    &&& final(self).phase == ConstrainedPhase::Rounds
                    &&& final(self).bonus == walk.output@.last()
                }
            }),
    {
        self.generated = copy_tokens(walk.output.as_slice());
        if cancelled {
            self.stop_reason = GenerationStopReason::CallbackCancelled;
            self.phase = ConstrainedPhase::Finished;
            return CacheAction::Keep;
        }
        if let Some(reason) = walk.stop_reason {
            self.stop_reason = reason;
            self.phase = ConstrainedPhase::Finished;
            return if walk.rebuild && walk.output.len() > 0 {
                CacheAction::Replay
            } else {
                CacheAction::Keep
            };
        }
        if walk.output.len() == 0 {
            return CacheAction::Keep;
        }
        self.phase = ConstrainedPhase::Rounds;
        self.bonus = walk.output[walk.output.len() - 1];
        if !walk.rebuild && walk.new_tokens.len() == 1 && same_tokens(
            walk.output.as_slice(),
            walk.new_tokens.as_slice(),
        ) {
            CacheAction::FinishPrefill { first_token: walk.output[0] }
        } else {
            CacheAction::Replay
        }
    }

    /// What the next round drafts from. At least one token is always asked for.
    pub fn begin_round(&self) -> (request: RoundRequest)
        requires
            self.wf(),
            self.phase == ConstrainedPhase::Rounds,
        ensures
            request.bonus == self.bonus,
            request.remaining == self.max_tokens - self.generated@.len(),
            request.proposal_count == vstd::math::min(
                self.block_size - 1,
                request.remaining as int,
            ),
            1 <= request.proposal_count <= request.remaining,
    {
        let remaining: usize = self.max_tokens - self.generated.len();
        RoundRequest {
            bonus: self.bonus,
            proposal_count: round_proposal_count(self.block_size, remaining),
            remaining,
        }
    }

    /// The tokens that the target verifies: the bonus token, then the drafted ones.
    pub fn verify_tokens(&self, draft_tokens: &[i32]) -> (tokens: Vec<i32>)
        ensures
            tokens@ == seq![self.bonus] + draft_tokens@,
    {
        let mut tokens: Vec<i32> = Vec::new();
        tokens.push(self.bonus);
        append_tokens(&mut tokens, draft_tokens);
        assert(tokens@ == seq![self.bonus] + draft_tokens@);
        tokens
    }

    /// Takes in a walk over `drafted` tokens and whether the receiver declined one of its tokens.
    /// The caches follow the walk before the generation ends or goes on.
    pub fn finish_round(&mut self, drafted: usize, walk: &ConstrainedWalk, cancelled: bool) -> (action:
        CacheAction)
        requires
            old(self).wf(),
            old(self).phase == ConstrainedPhase::Rounds,
            walk.accepted <= drafted,
            walk.output@.len() <= old(self).max_tokens,
            walk.stop_reason is None ==> walk.output@.len() < old(self).max_tokens,
            walk.stop_reason is None && !walk.rebuild ==> walk.new_tokens@.len() > 0
                && walk.output@.len() > 0 && walk.output@.last() == walk.new_tokens@.last(),
            old(self).stats.has_room(drafted as nat),
        ensures
            final(self).wf(),
            final(self).same_request(old(self)),
            final(self).generated@ == walk.output@,
            final(self).cached_tokens == old(self).cached_tokens,
            final(self).prefix_used == old(self).prefix_used,
            final(self).stats == (MtpGenerationStats {
                accepted_draft_tokens: (old(self).stats.accepted_draft_tokens
                    + walk.accepted) as usize,
                proposed_draft_tokens: (old(self).stats.proposed_draft_tokens + drafted) as usize,
                ..old(self).stats
            }),
            action == (if walk.rebuild {
                if walk.output@.len() == 0 {
                    CacheAction::PrefillPrompt
                } else {
                    CacheAction::Replay
                }
            } else if walk.stop_reason != Some(GenerationStopReason::Eos) && walk.new_tokens@.len()
                > 0 {
                CacheAction::Reconcile {
                    rollback: if walk.accepted < drafted {
                        Some(walk.accepted)
                    } else {
                        None
                    },
                    hidden_row: walk.accepted,
                }
            } else {
                CacheAction::Keep
            }),
            final(self).bonus == (if walk.rebuild && walk.output@.len() > 0 {
                walk.output@.last()
            } else if action is Reconcile {
                walk.new_tokens@.last()
            } else {
                old(self).bonus
            }),
            ({
                if cancelled {
                    &&& final(self).phase == ConstrainedPhase::Finished
                    &&& final(self).stop_reason == GenerationStopReason::CallbackCancelled
                } else if walk.stop_reason is Some {
                    &&& final(self).phase == ConstrainedPhase::Finished
                    &&& final(self).stop_reason == walk.stop_reason->0
                } else {
                    &&& final(self).phase == (if walk.output@.len() == 0 {
                        ConstrainedPhase::Restart
                    } else {
                        ConstrainedPhase::Rounds
                    })
                    &&& final(self).stop_reason == GenerationStopReason::MaxTokens
                }
            }),
    {
        self.stats.record_round(walk.accepted, drafted);
        self.generated = copy_tokens(walk.output.as_slice());
        let ended_by_eos = match walk.stop_reason {
            Some(GenerationStopReason::Eos) => true,
            _ => false,
        };
        let action: CacheAction = if walk.rebuild {
            if walk.output.len() == 0 {
                CacheAction::PrefillPrompt
            } else {
                self.bonus = walk.output[walk.output.len() - 1];
                CacheAction::Replay
            }
        } else if !ended_by_eos && walk.new_tokens.len() > 0 {
            self.bonus = walk.new_tokens[walk.new_tokens.len() - 1];
            CacheAction::Reconcile {
                rollback: if walk.accepted < drafted {
                    Some(walk.accepted)
                } else {
                    None
                },
                hidden_row: walk.accepted,
            }
        } else {
            CacheAction::Keep
        };
        if cancelled {
            self.stop_reason = GenerationStopReason::CallbackCancelled;
            self.phase = ConstrainedPhase::Finished;
        } else if let Some(reason) = walk.stop_reason {
            self.stop_reason = reason;
            self.phase = ConstrainedPhase::Finished;
        } else if walk.output.len() == 0 {
            self.phase = ConstrainedPhase::Restart;
        }
        action
    }

    /// Takes in the first step of a restart. An output that stays empty goes on to a round with
    /// the bonus token of before.
    pub fn restart_step(&mut self, walk: &ConstrainedWalk) -> (action: CacheAction)
        requires
            old(self).wf(),
            old(self).phase == ConstrainedPhase::Restart,
            walk.output@.len() <= old(self).max_tokens,
            walk.stop_reason is None ==> walk.output@.len() < old(self).max_tokens,
        ensures
            final(self).wf(),
            final(self).same_request(old(self)),
            final(self).generated@ == walk.output@,
            final(self).stats == old(self).stats,
            final(self).cached_tokens == old(self).cached_tokens,
            final(self).prefix_used == old(self).prefix_used,
            ({
                if walk.stop_reason is Some {
                    &&& action == CacheAction::Keep
                    &&& final(self).phase == ConstrainedPhase::Finished
                    &&& final(self).stop_reason == walk.stop_reason->0
                } else {
                    &&& final(self).phase == ConstrainedPhase::Rounds
                    &&& final(self).stop_reason == GenerationStopReason::MaxTokens
                    &&& if walk.output@.len() == 0 {
                        action == CacheAction::Keep && final(self).bonus == old(self).bonus
                    } else {
                        action == CacheAction::Replay && final(self).bonus == walk.output@.last()
                    }
                }
            }),
    {
        self.generated = copy_tokens(walk.output.as_slice());
        if let Some(reason) = walk.stop_reason {
            self.stop_reason = reason;
            self.phase = ConstrainedPhase::Finished;
            return CacheAction::Keep;
        }
        self.phase = ConstrainedPhase::Rounds;
        if walk.output.len() == 0 {
            return CacheAction::Keep;
        }
        self.bonus = walk.output[walk.output.len() - 1];
        CacheAction::Replay
    }
}

} // verus!
