//! What walks, emissions, rewrites and snapshots come to.

use vstd::prelude::*;
use crate::qwen3_5_mtp::constrained_decode::{before_eos, shown_tokens};
use crate::qwen3_5_mtp::constraint::{
    commit_stop, committed_output, spliced, ConstrainedWalk, ConstraintCommit,
};
use crate::qwen3_5_mtp::draft::DraftBlock;
use crate::qwen3_5_mtp::emit::{declined, emission_stop, EmissionEnd};
use crate::qwen3_5_mtp::prefill::{replays, ReplayPlan};
use crate::qwen3_5_mtp::snapshot::{MtpPromptSnapshot, MtpSnapshotError};
use crate::qwen3_5_mtp::stats::{
    crosses_interval, crossing_is_quotient_increase, MTP_CACHE_WATERMARK_BYTES,
    MTP_STATE_MATERIALIZE_INTERVAL,
};
use crate::qwen3_5_mtp::walk::{
    matching_prefix, matching_prefix_is_longest, stochastic_outcome, truncated, DraftVerdict,
    GenerationStopReason,
};

verus! {

/// Cutting keeps a prefix, as long as the limit allows.
pub proof fn cutting_keeps_a_prefix(tokens: Seq<i32>, limit: nat)
    ensures
        truncated(tokens, limit).len() <= limit,
        truncated(tokens, limit).len() == limit || truncated(tokens, limit).len() == tokens.len(),
        forall|i: int|
            0 <= i < truncated(tokens, limit).len() ==> #[trigger] truncated(tokens, limit)[i]
                == tokens[i],
        truncated(tokens, limit).len() <= tokens.len(),
{
}

/// Greedy verification yields what the target alone would have chosen: every token of the walk is
/// the target's. Drafts count as accepted up to the first one that differs, and unless the budget
/// cuts it off one token of the target follows them.
pub proof fn greedy_walks_say_what_the_target_says(
    draft: Seq<i32>,
    target: Seq<i32>,
    max_new_tokens: nat,
)
    requires
        target.len() > draft.len(),
    ensures
        ({
            let accepted = matching_prefix(draft, target);
            let tokens = truncated(target.take(accepted as int + 1), max_new_tokens);
            &&& accepted <= draft.len()
            &&& forall|i: int| 0 <= i < accepted ==> draft[i] == target[i]
            &&& accepted < draft.len() ==> draft[accepted as int] != target[accepted as int]
            &&& forall|i: int| 0 <= i < tokens.len() ==> #[trigger] tokens[i] == target[i]
            &&& tokens.len() == vstd::math::min(accepted as int + 1, max_new_tokens as int)
        }),
{
    matching_prefix_is_longest(draft, target);
    let accepted = matching_prefix(draft, target);
    assert forall|i: int| 0 <= i < accepted implies draft[i] == target[i] by {
        assert(draft.take(accepted as int)[i] == target.take(accepted as int)[i]);
    }
}

/// A stochastic walk follows the verdicts: what it accepts was accepted, and nothing accepted ended
/// the sequence but perhaps the last one. What follows is the replacement of a refused proposal, or
/// the bonus after all of them; nothing follows only where the sequence ended or the budget is
/// spent.
pub proof fn stochastic_walks_follow_verdicts(
    proposals: Seq<i32>,
    verdicts: Seq<DraftVerdict>,
    bonus: i32,
    eos: Seq<i32>,
    max_new_tokens: nat,
)
    requires
        verdicts.len() == proposals.len(),
        max_new_tokens > 0,
    ensures
        ({
            let (accepted, tokens) = stochastic_outcome(
                proposals,
                verdicts,
                bonus,
                eos,
                max_new_tokens,
                0,
            );
            &&& accepted <= proposals.len()
            &&& accepted <= tokens.len() <= max_new_tokens
            &&& forall|i: int| 0 <= i < accepted ==> tokens[i] == proposals[i]
            &&& forall|i: int| 0 <= i < accepted ==> (#[trigger] verdicts[i]) is Accept
            &&& forall|i: int| 0 <= i < accepted - 1 ==> !eos.contains(#[trigger] proposals[i])
            &&& tokens.len() == accepted || tokens.len() == accepted + 1
            &&& tokens.len() == accepted + 1 && accepted < proposals.len()
                ==> verdicts[accepted as int] == (DraftVerdict::Reject { replacement: tokens.last() })
            &&& tokens.len() == accepted + 1 && accepted == proposals.len() ==> tokens.last()
                == bonus
            &&& tokens.len() == accepted ==> accepted > 0 && (accepted == max_new_tokens
                || eos.contains(proposals[accepted - 1]))
        }),
{
    walks_follow_from(proposals, verdicts, bonus, eos, max_new_tokens, 0);
}

proof fn walks_follow_from(
    proposals: Seq<i32>,
    verdicts: Seq<DraftVerdict>,
    bonus: i32,
    eos: Seq<i32>,
    max_new_tokens: nat,
    position: nat,
)
    requires
        verdicts.len() == proposals.len(),
        position < max_new_tokens,
        position <= proposals.len(),
        forall|i: int| 0 <= i < position ==> (#[trigger] verdicts[i]) is Accept,
        forall|i: int| 0 <= i < position ==> !eos.contains(#[trigger] proposals[i]),
    ensures
        ({
            let (accepted, tokens) = stochastic_outcome(
                proposals,
                verdicts,
                bonus,
                eos,
                max_new_tokens,
                position,
            );
            &&& accepted <= proposals.len()
            &&& accepted <= tokens.len() <= max_new_tokens
            &&& forall|i: int| 0 <= i < accepted ==> tokens[i] == proposals[i]
            &&& forall|i: int| 0 <= i < accepted ==> (#[trigger] verdicts[i]) is Accept
            &&& forall|i: int| 0 <= i < accepted - 1 ==> !eos.contains(#[trigger] proposals[i])
            &&& tokens.len() == accepted || tokens.len() == accepted + 1
            &&& tokens.len() == accepted + 1 && accepted < proposals.len()
                ==> verdicts[accepted as int] == (DraftVerdict::Reject { replacement: tokens.last() })
            &&& tokens.len() == accepted + 1 && accepted == proposals.len() ==> tokens.last()
                == bonus
            &&& tokens.len() == accepted ==> accepted > 0 && (accepted == max_new_tokens
                || eos.contains(proposals[accepted - 1]))
        }),
    decreases proposals.len() - position,
{
    if position < proposals.len() {
        if let DraftVerdict::Accept = verdicts[position as int] {
            if !(eos.contains(proposals[position as int]) || position + 1 == max_new_tokens) {
                walks_follow_from(
                    proposals,
                    verdicts,
                    bonus,
                    eos,
                    max_new_tokens,
                    position + 1,
                );
            }
        }
    }
}

/// A generation stops for the receiver exactly if one of the tokens shown was declined; else for the
/// end of the sequence or the budget, if one of them ended the emission.
pub proof fn emissions_stop_for_their_cause(end: EmissionEnd, answers: Seq<bool>, count: nat)
    requires
        count <= answers.len(),
    ensures
        ({
            let refused = answers.take(count as int).contains(false);
            let stop = emission_stop(end, declined(answers, count));
            &&& declined(answers, count) == refused
            &&& stop == Some(GenerationStopReason::CallbackCancelled) <==> refused
            &&& stop == Some(GenerationStopReason::Eos) <==> !refused && end == EmissionEnd::Eos
            &&& stop == Some(GenerationStopReason::MaxTokens) <==> !refused && end
                == EmissionEnd::Budget
            &&& stop is None <==> !refused && end == EmissionEnd::Exhausted
        }),
{
    let shown = answers.take(count as int);
    if shown.contains(false) {
        let at = shown.index_of(false);
        assert(!answers[at]);
    }
    if declined(answers, count) {
        let at = choose|i: int| 0 <= i < count && !#[trigger] answers[i];
        assert(shown[at] == false);
    }
}

/// A rewrite takes tokens off the end and puts others there: what stood before them stays, and
/// rewriting again undoes it.
pub proof fn rewrites_change_the_end_only(output: Seq<i32>, backtrack: nat, tokens: Seq<i32>)
    requires
        backtrack <= output.len(),
    ensures
        ({
            let kept = output.len() - backtrack;
            let rewritten = spliced(output, backtrack, tokens);
            &&& rewritten.len() == kept + tokens.len()
            &&& forall|i: int| 0 <= i < kept ==> #[trigger] rewritten[i] == output[i]
            &&& forall|i: int| 0 <= i < tokens.len() ==> rewritten[kept + i] == #[trigger] tokens[i]
            &&& spliced(rewritten, tokens.len(), output.skip(kept)) == output
        }),
{
    let kept = output.len() - backtrack;
    let rewritten = spliced(output, backtrack, tokens);
    assert(rewritten.take(kept) =~= output.take(kept));
    assert(spliced(rewritten, tokens.len(), output.skip(kept)) =~= output);
}

/// What a commit leaves is the rewritten output up to the budget. The generation stops for a
/// constraint that is satisfied before anything else, and for a budget that is spent.
pub proof fn commits_keep_the_budget(output: Seq<i32>, commit: ConstraintCommit, max_tokens: nat)
    requires
        commit.backtrack <= output.len(),
    ensures
        ({
            let left = committed_output(output, commit, max_tokens);
            let kept = output.len() - commit.backtrack;
            let full = kept + commit.tokens@.len();
            let stop = commit_stop(commit.accept, left.len(), max_tokens);
            &&& left.len() == vstd::math::min(full as int, max_tokens as int)
            &&& forall|i: int| 0 <= i < left.len() ==> #[trigger] left[i] == if i < kept {
                output[i]
            } else {
                commit.tokens@[i - kept]
            }
            &&& stop == Some(GenerationStopReason::ConstraintAccepted) <==> commit.accept
            &&& stop == Some(GenerationStopReason::MaxTokens) <==> !commit.accept && full
                >= max_tokens
            &&& stop is None <==> !commit.accept && full < max_tokens
        }),
{
}

/// The tokens before the end of a sequence are the longest prefix that holds no such token.
pub proof fn tokens_before_the_end(tokens: Seq<i32>, eos: Seq<i32>)
    ensures
        ({
            let shown = before_eos(tokens, eos);
            &&& shown.len() <= tokens.len()
            &&& forall|i: int|
                0 <= i < shown.len() ==> #[trigger] shown[i] == tokens[i] && !eos.contains(tokens[i])
            &&& shown.len() < tokens.len() ==> eos.contains(tokens[shown.len() as int])
        }),
    decreases tokens.len(),
{
    if tokens.len() > 0 && !eos.contains(tokens[0]) {
        let rest = tokens.skip(1);
        tokens_before_the_end(rest, eos);
        let shown = before_eos(tokens, eos);
        let later = before_eos(rest, eos);
        assert forall|i: int| 0 <= i < shown.len() implies #[trigger] shown[i] == tokens[i]
            && !eos.contains(tokens[i]) by {
            if i > 0 {
                assert(shown[i] == later[i - 1]);
                assert(rest[i - 1] == tokens[i]);
            }
        }
        if shown.len() < tokens.len() {
            assert(rest[later.len() as int] == tokens[shown.len() as int]);
        }
    }
}

/// The receiver sees the chosen tokens before the end of the sequence. Where a rewrite came without
/// a chosen token, it sees the last token of the output instead.
pub proof fn receivers_see_chosen_tokens(walk: ConstrainedWalk, eos: Seq<i32>)
    ensures
        ({
            let shown = shown_tokens(walk, eos);
            let chosen = walk.new_tokens@;
            &&& chosen.len() > 0 ==> shown.len() <= chosen.len()
            &&& chosen.len() > 0 ==> forall|i: int|
                0 <= i < shown.len() ==> #[trigger] shown[i] == chosen[i] && !eos.contains(chosen[i])
            &&& 0 < chosen.len() && shown.len() < chosen.len() ==> eos.contains(
                chosen[shown.len() as int],
            )
            &&& chosen.len() == 0 && walk.rebuild && walk.output@.len() > 0 ==> shown == seq![
                walk.output@.last(),
            ]
            &&& chosen.len() == 0 && !(walk.rebuild && walk.output@.len() > 0) ==> shown.len() == 0
        }),
{
    tokens_before_the_end(walk.new_tokens@, eos);
}

/// An interval is reached where the number of whole intervals grows; a round that stays between two
/// multiples does not reach one, and one that goes on for a whole interval does.
pub proof fn intervals_are_reached_by_quotients(previous: nat, emitted: nat, interval: nat)
    ensures
        interval == 0 ==> !crosses_interval(previous, emitted, interval),
        interval > 0 ==> crosses_interval(previous, emitted, interval) == (previous / interval
            < emitted / interval),
        interval > 0 && emitted >= previous + interval ==> crosses_interval(
            previous,
            emitted,
            interval,
        ),
{
    if interval > 0 {
        crossing_is_quotient_increase(previous, emitted, interval);
        if emitted >= previous + interval {
            vstd::arithmetic::div_mod::lemma_div_plus_one(previous as int, interval as int);
            vstd::arithmetic::div_mod::lemma_div_is_ordered(
                (previous + interval) as int,
                emitted as int,
                interval as int,
            );
        }
    }
}

/// A snapshot is accepted exactly if it represents tokens, its drafter is one row behind, keys and
/// values are there together, at least where there are rows, and of the same four dimensions, and
/// hidden state and logits are single rows.
pub proof fn accepted_snapshots_fit_together(snapshot: MtpPromptSnapshot)
    ensures
        snapshot.wf() == {
            let tokens = snapshot.target_token_len as int;
            let hidden = snapshot.last_hidden.shape@;
            let logits = snapshot.continuation_logits.shape@;
            &&& 1 <= tokens <= 0x8000_0000
            &&& snapshot.draft_offset == tokens - 1
            &&& snapshot.draft_keys is Some == snapshot.draft_values is Some
            &&& tokens > 1 ==> snapshot.draft_keys is Some
            &&& snapshot.draft_keys is Some && snapshot.draft_values is Some
                ==> snapshot.draft_keys->0.shape@.len() == 4 && snapshot.draft_keys->0.shape@
                == snapshot.draft_values->0.shape@
            &&& hidden.len() == 3 && hidden[0] == 1 && hidden[1] == 1
            &&& logits.len() == 3 && logits[0] == 1 && logits[1] == 1
        },
        snapshot.target_token_len == 0 ==> snapshot.layout_error() == Some(
            MtpSnapshotError::EmptyPrompt,
        ),
{
}

/// Short outputs need no verification: without output there is nothing to replay, and after a single
/// token the caches stand right after the prompt.
pub proof fn short_outputs_need_no_verification(
    plan: ReplayPlan,
    prompt_len: nat,
    output: Seq<i32>,
)
    requires
        replays(plan, prompt_len, output),
    ensures
        output.len() == 0 <==> plan is Nothing,
        output.len() == 1 <==> plan is PromptOnly,
        plan matches ReplayPlan::PromptOnly { first_token, token_len } ==> output == seq![first_token]
            && token_len == prompt_len,
{
    if output.len() == 1 {
        assert(output =~= seq![output[0]]);
    }
}

/// Drafting goes on until the block is full or ends the sequence, and no further.
pub proof fn drafting_goes_on_until_full_or_ended(block: DraftBlock)
    requires
        block.wf(),
    ensures
        block.open_ended() <==> block.tokens().len() < block.proposal_count() && forall|i: int|
            0 <= i < block.tokens().len() ==> !block.eos().contains(#[trigger] block.tokens()[i]),
{
    let tokens = block.tokens();
    if block.open_ended() {
        assert forall|i: int| 0 <= i < tokens.len() implies !block.eos().contains(
            #[trigger] tokens[i],
        ) by {
            if i == tokens.len() - 1 {
                assert(tokens[i] == tokens.last());
            }
        }
    }
    if tokens.len() > 0 {
        assert(tokens.last() == tokens[tokens.len() - 1]);
    }
}

/// The state is materialised every hundred and twenty-eight tokens, and the allocator's cache is
/// released at three quarters of a gibibyte.
pub proof fn upkeep_intervals_are_fixed()
    ensures
        MTP_STATE_MATERIALIZE_INTERVAL == 128,
        4 * MTP_CACHE_WATERMARK_BYTES == 3 * (1024 * 1024 * 1024),
{
}

} // verus!
