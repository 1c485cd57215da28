//! Planning of prompt prefills: prefix reuse, checkpoints, shifted rows.

use vstd::prelude::*;
use vstd::slice::slice_subrange;
use crate::qwen3_5_mtp::snapshot::{offset_error, MtpPrefixReuse, MtpSnapshotError};
use crate::tokens::append_tokens;

verus! {

/// Strictly increasing lengths between one and the length of the prompt.
pub open spec fn checkpoints_valid(lengths: Seq<usize>, prompt_len: nat) -> bool {
    &&& forall|i: int| 0 <= i < lengths.len() ==> 1 <= #[trigger] lengths[i] <= prompt_len
    &&& forall|i: int, j: int| 0 <= i < j < lengths.len() ==> lengths[i] < lengths[j]
}

/// Whether checkpoint lengths are sorted, unique and within the prompt.
pub fn checkpoint_lengths_valid(lengths: &[usize], prompt_len: usize) -> (valid: bool)
    ensures
        valid == checkpoints_valid(lengths@, prompt_len as nat),
{
    let mut index: usize = 0;
    while index < lengths.len()
        invariant
            index <= lengths@.len(),
            checkpoints_valid(lengths@.take(index as int), prompt_len as nat),
        decreases lengths@.len() - index,
    {
        let length: usize = lengths[index];
        let ghost shorter = lengths@.take(index as int);
        let ghost longer = lengths@.take(index + 1);
        if length == 0 || length > prompt_len || (index > 0 && lengths[index - 1] >= length) {
            assert(lengths@[index as int] == length);
            return false;
        }
        assert forall|i: int, j: int| 0 <= i < j < longer.len() implies longer[i] < longer[j] by {
            if j == index {
                assert(longer[j] == length);
                assert(longer[i] == shorter[i]);
                assert(shorter[index - 1] == lengths@[index - 1]);
                if i < index - 1 {
                    assert(shorter[i] < shorter[index - 1]);
                }
            } else {
                assert(longer[i] == shorter[i] && longer[j] == shorter[j]);
            }
        }
        assert forall|i: int| 0 <= i < longer.len() implies 1 <= #[trigger] longer[i]
            <= prompt_len by {
            if i < index {
                assert(longer[i] == shorter[i]);
            }
        }
        index = index + 1;
    }
    assert(lengths@.take(lengths@.len() as int) == lengths@);
    true
}

/// Why a prefill cannot be planned.
#[derive(Debug, Clone, Copy, PartialEq, Eq, Structural)]
pub enum MtpPrefillError {
    /// Checkpoint lengths are not sorted, unique and within the prompt.
    CheckpointLengths,
    /// The cached token count is zero or beyond the prompt.
    CachedTokensOutsidePrompt,
    /// The prompt does not end with the announced continuation token.
    ContinuationMismatch,
    /// The snapshot does not fit the cached prefix.
    Snapshot(MtpSnapshotError),
}

/// How the target gets from its cached prefix to the end of the prompt.
#[derive(Debug, Clone, Copy, PartialEq, Eq, Structural)]
pub enum PrefillPlan {
    /// Run the whole prompt on empty caches.
    Whole,
    /// Nothing to run: hidden state and logits come from the snapshot.
    Reuse,
    /// Restore the snapshot, then run the prompt from this token on.
    Suffix { start: usize },
}

/// What a prefill of `prompt` on top of `reuse` amounts to.
pub open spec fn prefill_plan(
    prompt: Seq<i32>,
    reuse: Option<MtpPrefixReuse>,
) -> Result<PrefillPlan, MtpPrefillError> {
    match reuse {
        None => Ok(PrefillPlan::Whole),
        Some(reuse) => {
            let cached = reuse.cached_tokens;
            let offsets = offset_error(
                reuse.snapshot.target_token_len as nat,
                cached as nat,
                reuse.snapshot.draft_offset as int,
            );
            if cached == 0 || cached > prompt.len() {
                Err(MtpPrefillError::CachedTokensOutsidePrompt)
            } else if offsets is Some {
                Err(MtpPrefillError::Snapshot(offsets->0))
            } else if !reuse.snapshot.key_value_complete() {
                Err(MtpPrefillError::Snapshot(MtpSnapshotError::IncompleteKeyValue))
            } else if reuse.continuation_token is Some {
                if cached + 1 != prompt.len() || prompt[cached as int]
                    != reuse.continuation_token->0 {
                    Err(MtpPrefillError::ContinuationMismatch)
                } else {
                    Ok(PrefillPlan::Reuse)
                }
            } else if cached == prompt.len() {
                Ok(PrefillPlan::Reuse)
            } else {
                Ok(PrefillPlan::Suffix { start: cached })
            }
        },
    }
}

/// The prompt tokens that a plan runs through the target. A continuation token that was reused with
/// the prefix is run by the first round instead.
pub open spec fn run_by(plan: PrefillPlan, prompt: Seq<i32>) -> Seq<i32> {
    match plan {
        PrefillPlan::Whole => prompt,
        PrefillPlan::Reuse => Seq::empty(),
        PrefillPlan::Suffix { start } => prompt.skip(start as int),
    }
}

/// Prompt tokens that are there before a prefill: those that the snapshot holds, and the
/// continuation token.
pub open spec fn covered_by(reuse: Option<MtpPrefixReuse>) -> int {
    match reuse {
        None => 0,
        Some(reuse) => reuse.snapshot.target_token_len + if reuse.continuation_token is Some {
            1int
        } else {
            0int
        },
    }
}

/// Plans the prefill of a text prompt on top of an optional cached prefix.
pub fn prefill_text_with_reuse(prompt_tokens: &[i32], reuse: &Option<MtpPrefixReuse>) -> (plan:
    Result<PrefillPlan, MtpPrefillError>)
    ensures
        plan == prefill_plan(prompt_tokens@, *reuse),
        plan matches Ok(PrefillPlan::Suffix { start }) ==> reuse matches Some(reuse) && start
            == reuse.snapshot.target_token_len,
        plan matches Ok(plan) ==> run_by(plan, prompt_tokens@).len() + covered_by(*reuse)
            == prompt_tokens@.len(),
{
    let reuse: &MtpPrefixReuse = match reuse {
        None => {
            return Ok(PrefillPlan::Whole);
        },
        Some(reuse) => reuse,
    };
    let cached: usize = reuse.cached_tokens;
    if cached == 0 || cached > prompt_tokens.len() {
        return Err(MtpPrefillError::CachedTokensOutsidePrompt);
    }
    match reuse.snapshot.restore_prompt_snapshot(cached) {
        Err(error) => {
            return Err(MtpPrefillError::Snapshot(error));
        },
        Ok(_) => {},
    }
    if let Some(token) = reuse.continuation_token {
        if prompt_tokens.len() - cached != 1 || prompt_tokens[cached] != token {
            return Err(MtpPrefillError::ContinuationMismatch);
        }
        return Ok(PrefillPlan::Reuse);
    }
    if cached == prompt_tokens.len() {
        Ok(PrefillPlan::Reuse)
    } else {
        Ok(PrefillPlan::Suffix { start: cached })
    }
}

/// Whatever is planned, the tokens that the snapshot holds, followed by the continuation token if
/// there is one and by the tokens that are run, are the whole prompt: none is skipped and none is
/// run twice. The drafter's rows end one token before the target's.
pub proof fn prefill_covers_prompt(prompt: Seq<i32>, reuse: Option<MtpPrefixReuse>)
    requires
        prefill_plan(prompt, reuse) is Ok,
    ensures
        ({
            let plan = prefill_plan(prompt, reuse)->Ok_0;
            match reuse {
                None => run_by(plan, prompt) == prompt,
                Some(reuse) => {
                    let held = reuse.snapshot.target_token_len as int;
                    let continued = match reuse.continuation_token {
                        Some(token) => seq![token],
                        None => Seq::empty(),
                    };
                    &&& 0 < held <= prompt.len()
                    &&& held == reuse.cached_tokens
                    &&& reuse.snapshot.draft_offset == held - 1
                    &&& prompt.take(held) + continued + run_by(plan, prompt) == prompt
                    &&& reuse.continuation_token is Some ==> run_by(plan, prompt).len() == 0
                    &&& plan matches PrefillPlan::Suffix { start } ==> start == held && held
                        < prompt.len()
                },
            }
        }),
{
    if let Some(reuse) = reuse {
        let plan = prefill_plan(prompt, Some(reuse))->Ok_0;
        let held = reuse.snapshot.target_token_len as int;
        let continued = match reuse.continuation_token {
            Some(token) => seq![token],
            None => Seq::empty(),
        };
        assert(prompt.take(held) + continued + run_by(plan, prompt) =~= prompt);
    }
}

/// A snapshot of a true prefix is never refused: with a continuation token if that is the one token
/// left, without one in any case.
pub proof fn fitting_snapshots_are_reused(prompt: Seq<i32>, reuse: MtpPrefixReuse)
    requires
        reuse.snapshot.wf(),
        reuse.cached_tokens == reuse.snapshot.target_token_len,
        reuse.cached_tokens <= prompt.len(),
        reuse.continuation_token matches Some(token) ==> prompt.len() == reuse.cached_tokens + 1
            && prompt.last() == token,
    ensures
        prefill_plan(prompt, Some(reuse)) is Ok,
        reuse.continuation_token is None && reuse.cached_tokens < prompt.len()
            ==> prefill_plan(prompt, Some(reuse))->Ok_0 is Suffix,
{
}

/// A checkpointed prefill goes from the cached prefix to the end of the prompt: boundaries ascend,
/// the last one is the end of the prompt, every requested length beyond the prefix is a boundary,
/// and every other boundary but the last was requested.
pub proof fn boundaries_reach_every_checkpoint(
    lengths: Seq<usize>,
    cached_tokens: nat,
    prompt_len: usize,
)
    requires
        forall|i: int| 0 <= i < lengths.len() ==> 1 <= #[trigger] lengths[i] <= prompt_len,
        forall|i: int, j: int| 0 <= i < j < lengths.len() ==> lengths[i] < lengths[j],
        cached_tokens <= prompt_len,
    ensures
        ({
            let boundaries = checkpoint_boundaries(lengths, cached_tokens, prompt_len as nat);
            &&& boundaries.len() > 0
            &&& boundaries.last() == prompt_len
            &&& forall|i: int, j: int|
                0 <= i < j < boundaries.len() ==> boundaries[i] < boundaries[j]
            &&& forall|i: int|
                0 <= i < boundaries.len() - 1 ==> #[trigger] boundaries[i] > cached_tokens
                    && lengths.contains(boundaries[i])
            &&& forall|i: int|
                0 <= i < lengths.len() && lengths[i] > cached_tokens ==> boundaries.contains(
                    #[trigger] lengths[i],
                )
        }),
{
    let keep = |length: usize| length > cached_tokens;
    let beyond = lengths.filter(keep);
    let boundaries = checkpoint_boundaries(lengths, cached_tokens, prompt_len as nat);
    lemma_filtered_increasing(lengths, keep);
    assert forall|i: int| 0 <= i < beyond.len() implies #[trigger] beyond[i] > cached_tokens
        && beyond[i] <= prompt_len && lengths.contains(beyond[i]) by {
        lengths.lemma_filter_pred(keep, i);
        assert(lengths.contains(beyond[i]));
        let at = lengths.index_of(beyond[i]);
        assert(lengths[at] == beyond[i]);
    }
    assert forall|i: int| 0 <= i < lengths.len() && lengths[i] > cached_tokens implies
        boundaries.contains(#[trigger] lengths[i]) by {
        lengths.lemma_filter_contains(keep, i);
        let at = beyond.index_of(lengths[i]);
        assert(beyond[at] == lengths[i]);
        assert(boundaries[at] == lengths[i]);
    }
    assert forall|i: int, j: int| 0 <= i < j < boundaries.len() implies boundaries[i]
        < boundaries[j] by {
        if j == beyond.len() {
            assert(beyond[i] <= prompt_len);
            if i < beyond.len() - 1 {
                assert(beyond[i] < beyond.last());
            }
            assert(beyond.last() <= prompt_len);
        }
    }
}

/// A continuation token that the plan admits is the last token of the prompt.
pub proof fn continuation_is_last_prompt_token(prompt: Seq<i32>, reuse: MtpPrefixReuse)
    requires
        prefill_plan(prompt, Some(reuse)) is Ok,
        reuse.continuation_token is Some,
    ensures
        prompt.len() > 0,
        prompt.last() == reuse.continuation_token->0,
        prefill_plan(prompt, Some(reuse)) == Ok::<PrefillPlan, MtpPrefillError>(PrefillPlan::Reuse),
{
}

/// One stretch of a checkpointed prefill.
#[derive(Debug, Clone, Copy, PartialEq, Eq, Structural)]
pub struct CheckpointSegment {
    /// The prompt is filled up to here.
    pub token_len: usize,
    /// Tokens that are cached when the stretch starts.
    pub cached_tokens: usize,
    /// Whether a snapshot is taken at its end.
    pub capture: bool,
}

/// The boundaries at which a checkpointed prefill stops: the checkpoints beyond the cached
/// prefix, then the end of the prompt unless the last checkpoint is there already.
pub open spec fn checkpoint_boundaries(
    lengths: Seq<usize>,
    cached_tokens: nat,
    prompt_len: nat,
) -> Seq<usize> {
    let beyond = lengths.filter(|length: usize| length > cached_tokens);
    if beyond.len() > 0 && beyond.last() == prompt_len {
        beyond
    } else {
        beyond.push(prompt_len as usize)
    }
}

/// Splits a text prefill at the requested checkpoints. Every stretch starts where the one before
/// ended, the first one at the cached prefix.
pub fn checkpoint_segments(
    checkpoint_token_lengths: &[usize],
    cached_tokens: usize,
    prompt_len: usize,
) -> (segments: Vec<CheckpointSegment>)
    requires
        checkpoints_valid(checkpoint_token_lengths@, prompt_len as nat),
        cached_tokens <= prompt_len,
    ensures
        ({
            let boundaries = checkpoint_boundaries(
                checkpoint_token_lengths@,
                cached_tokens as nat,
                prompt_len as nat,
            );
            &&& segments@.len() == boundaries.len()
            &&& forall|i: int|
                0 <= i < segments@.len() ==> #[trigger] segments@[i] == (CheckpointSegment {
                    token_len: boundaries[i],
                    cached_tokens: if i == 0 {
                        cached_tokens
                    } else {
                        boundaries[i - 1]
                    },
                    capture: checkpoint_token_lengths@.contains(boundaries[i]),
                })
        }),
{
    let ghost lengths = checkpoint_token_lengths@;
    let ghost keep = |length: usize| length > cached_tokens;
    let mut segments: Vec<CheckpointSegment> = Vec::new();
    let mut reached: usize = cached_tokens;
    let mut index: usize = 0;
    assert(lengths.take(0).filter(keep) == Seq::<usize>::empty());
    while index < checkpoint_token_lengths.len()
        invariant
            lengths == checkpoint_token_lengths@,
            keep == |length: usize| length > cached_tokens,
            index <= lengths.len(),
            segments@.len() == lengths.take(index as int).filter(keep).len(),
            forall|i: int|
                0 <= i < segments@.len() ==> #[trigger] segments@[i] == (CheckpointSegment {
                    token_len: lengths.take(index as int).filter(keep)[i],
                    cached_tokens: if i == 0 {
                        cached_tokens
                    } else {
                        lengths.take(index as int).filter(keep)[i - 1]
                    },
                    capture: true,
                }),
            reached == (if segments@.len() == 0 {
                cached_tokens
            } else {
                segments@.last().token_len
            }),
        decreases lengths.len() - index,
    {
        let length: usize = checkpoint_token_lengths[index];
        proof {
            let shorter = lengths.take(index as int);
            assert(lengths.take(index + 1) == shorter.push(length));
            shorter.lemma_filter_push(length, keep);
        }
        if length > cached_tokens {
            segments.push(
                CheckpointSegment { token_len: length, cached_tokens: reached, capture: true },
            );
            reached = length;
        }
        index = index + 1;
    }
    let ghost beyond = lengths.filter(keep);
    proof {
        assert(lengths.take(lengths.len() as int) == lengths);
        lemma_filtered_increasing(lengths, keep);
    }
    if reached != prompt_len || segments.len() == 0 {
        let ghost before = segments@;
        proof {
            if lengths.contains(prompt_len) {
                let at = lengths.index_of(prompt_len);
                assert(lengths[at] == prompt_len);
                if prompt_len > cached_tokens {
                    lengths.lemma_filter_contains(keep, at);
                    assert(beyond.contains(prompt_len));
                    let k = beyond.index_of(prompt_len);
                    assert(beyond[k] == prompt_len);
                    assert(lengths.contains(beyond.last()));
                    if k < beyond.len() - 1 {
                        assert(beyond[k] < beyond.last());
                    }
                }
            }
        }
        segments.push(
            CheckpointSegment {
                token_len: prompt_len,
                cached_tokens: reached,
                capture: contains_length(checkpoint_token_lengths, prompt_len),
            },
        );
    }
    segments
}

proof fn lemma_filtered_increasing(lengths: Seq<usize>, keep: spec_fn(usize) -> bool)
    requires
        forall|i: int, j: int| 0 <= i < j < lengths.len() ==> lengths[i] < lengths[j],
    ensures
        forall|i: int, j: int|
            0 <= i < j < lengths.filter(keep).len() ==> lengths.filter(keep)[i]
                < lengths.filter(keep)[j],
        forall|i: int|
            0 <= i < lengths.filter(keep).len() ==> lengths.contains(
                #[trigger] lengths.filter(keep)[i],
            ),
    decreases lengths.len(),
{
    reveal(Seq::filter);
    if lengths.len() > 0 {
        let shorter = lengths.drop_last();
        let kept = shorter.filter(keep);
        let all = lengths.filter(keep);
        lemma_filtered_increasing(shorter, keep);
        assert(all == if keep(lengths.last()) {
            kept.push(lengths.last())
        } else {
            kept
        });
        assert forall|i: int| 0 <= i < all.len() implies lengths.contains(#[trigger] all[i]) by {
            if i < kept.len() {
                assert(shorter.contains(kept[i]));
                let k = shorter.index_of(kept[i]);
                assert(lengths[k] == kept[i]);
            } else {
                assert(lengths[lengths.len() - 1] == all[i]);
            }
        }
        assert forall|i: int, j: int| 0 <= i < j < all.len() implies all[i] < all[j] by {
            if j == kept.len() {
                assert(shorter.contains(kept[i]));
                let k = shorter.index_of(kept[i]);
                assert(lengths[k] < lengths.last());
            }
        }
    }
}

fn contains_length(lengths: &[usize], length: usize) -> (found: bool)
    ensures
        found == lengths@.contains(length),
{
    let mut index: usize = 0;
    while index < lengths.len()
        invariant
            index <= lengths@.len(),
            forall|i: int| 0 <= i < index ==> lengths@[i] != length,
        decreases lengths@.len() - index,
    {
        if lengths[index] == length {
            assert(lengths@[index as int] == length);
            return true;
        }
        index = index + 1;
    }
    false
}

/// The rows that pair with target rows `start..end`: every row is shifted by one, because the
/// drafter sees the token after the one whose hidden state it gets. With a bonus row the range
/// runs to the end of the prompt and the bonus follows.
pub open spec fn shifted_rows(rows: Seq<i32>, start: int, end: int, bonus: Option<i32>) -> Seq<
    i32,
> {
    match bonus {
        Some(bonus) => rows.subrange(start + 1, rows.len() as int).push(bonus),
        None => rows.subrange(start + 1, end + 1),
    }
}

/// The tail rows of a shifted range: from `start + 1` up to, excluding, the returned stop.
pub fn shifted_range_stop(rows: usize, start: usize, end: usize, has_bonus: bool) -> (stop: usize)
    requires
        start < rows,
        has_bonus || (start < end && end < rows),
    ensures
        stop == (if has_bonus { rows as int } else { end + 1 }),
        start + 1 <= stop <= rows,
        !has_bonus ==> start + 1 < stop,
{
    if has_bonus {
        rows
    } else {
        end + 1
    }
}

/// The shifted tokens that pair with target rows `start..end`.
pub fn shifted_tokens(rows: &[i32], start: usize, end: usize, bonus: Option<i32>) -> (shifted: Vec<
    i32,
>)
    requires
        start < rows@.len(),
        bonus is None ==> start < end && end < rows@.len(),
    ensures
        shifted@ == shifted_rows(rows@, start as int, end as int, bonus),
        shifted@.len() == (if bonus is Some { rows@.len() - start } else { end - start }),
{
    let stop: usize = shifted_range_stop(rows.len(), start, end, bonus.is_some());
    let mut shifted: Vec<i32> = Vec::new();
    append_tokens(&mut shifted, slice_subrange(rows, start + 1, stop));
    assert(shifted@ == rows@.subrange(start + 1, stop as int));
    if let Some(token) = bonus {
        shifted.push(token);
    }
    shifted
}

/// Shifted chunks stay aligned: two neighbouring ranges give what the range over both gives.
pub proof fn shifted_ranges_join(rows: Seq<i32>, start: int, middle: int, end: int)
    requires
        0 <= start <= middle <= end < rows.len(),
    ensures
        shifted_rows(rows, start, middle, None) + shifted_rows(rows, middle, end, None)
            == shifted_rows(rows, start, end, None),
{
    assert(shifted_rows(rows, start, middle, None) + shifted_rows(rows, middle, end, None)
        =~= shifted_rows(rows, start, end, None));
}

/// The last chunk, which carries the bonus row, completes the others: together they are the
/// prompt without its first row, followed by the bonus.
pub proof fn shifted_ranges_end_with_bonus(rows: Seq<i32>, middle: int, bonus: i32)
    requires
        0 <= middle < rows.len(),
    ensures
        shifted_rows(rows, 0, middle, None) + shifted_rows(
            rows,
            middle,
            rows.len() as int,
            Some(bonus),
        ) == rows.skip(1).push(bonus),
{
    assert(shifted_rows(rows, 0, middle, None) + shifted_rows(
        rows,
        middle,
        rows.len() as int,
        Some(bonus),
    ) =~= rows.skip(1).push(bonus));
}

/// Rows that the drafter is still owed after the target ran a prompt in chunks: all but the last
/// row of the final chunk. `None` when the final chunk is a single row.
pub fn final_chunk_range(prompt_len: usize, final_rows: usize) -> (range: Option<(usize, usize)>)
    requires
        1 <= final_rows <= prompt_len,
    ensures
        range == (if final_rows > 1 {
            Some(((prompt_len - final_rows) as usize, (prompt_len - 1) as usize))
        } else {
            None
        }),
{
    if final_rows > 1 {
        Some((prompt_len - final_rows, prompt_len - 1))
    } else {
        None
    }
}

/// How the caches are brought to an output that was already emitted.
#[derive(Debug)]
pub enum ReplayPlan {
    /// No output: nothing to capture.
    Nothing,
    /// One token: the state right after the prompt is the aligned one.
    PromptOnly { first_token: i32, token_len: usize },
    /// Verify all but the last token in one go.
    Verify {
        first_token: i32,
        /// Tokens to run through the target.
        verify_tokens: Vec<i32>,
        /// Tokens to count as accepted drafts.
        draft_tokens: Vec<i32>,
        /// Row of the verified states that belongs to the last cached token.
        aligned: usize,
        /// Tokens that the caches hold afterwards.
        token_len: usize,
        /// The token that is not cached yet.
        bonus: i32,
    },
}

/// What it takes to bring caches that hold the prompt to one token before the end of `output`.
pub open spec fn replays(plan: ReplayPlan, prompt_len: nat, output: Seq<i32>) -> bool {
    if output.len() == 0 {
        plan is Nothing
    } else if output.len() == 1 {
        plan matches ReplayPlan::PromptOnly { first_token, token_len } && first_token == output[0]
            && token_len == prompt_len
    } else {
        &&& plan matches ReplayPlan::Verify {
            first_token,
            verify_tokens,
            draft_tokens,
            aligned,
            token_len,
            bonus,
        }
        &&& first_token == output[0]
        &&& verify_tokens@ == output.drop_last()
        &&& draft_tokens@ == output.subrange(1, output.len() - 1)
        &&& aligned == output.len() - 2
        &&& token_len == prompt_len + output.len() - 1
        &&& bonus == output.last()
    }
}

/// Plans a replay of `output` on top of a prompt of `prompt_len` tokens.
pub fn replay_plan(prompt_len: usize, output: &[i32]) -> (plan: ReplayPlan)
    requires
        prompt_len + output@.len() <= usize::MAX,
    ensures
        replays(plan, prompt_len as nat, output@),
{
    let length: usize = output.len();
    if length == 0 {
        return ReplayPlan::Nothing;
    }
    if length == 1 {
        return ReplayPlan::PromptOnly { first_token: output[0], token_len: prompt_len };
    }
    let mut verify_tokens: Vec<i32> = Vec::new();
    append_tokens(&mut verify_tokens, slice_subrange(output, 0, length - 1));
    let mut draft_tokens: Vec<i32> = Vec::new();
    append_tokens(&mut draft_tokens, slice_subrange(output, 1, length - 1));
    assert(verify_tokens@ == output@.drop_last());
    assert(draft_tokens@ == output@.subrange(1, output@.len() - 1));
    ReplayPlan::Verify {
        first_token: output[0],
        verify_tokens,
        draft_tokens,
        aligned: length - 2,
        token_len: prompt_len + length - 1,
        bonus: output[length - 1],
    }
}

/// A replay reaches its aligned state: the verified block is the first token followed by the
/// drafts, the aligned row is its last row, and one token of the output stays uncached.
pub proof fn replay_is_aligned(plan: ReplayPlan, prompt_len: nat, output: Seq<i32>)
    requires
        replays(plan, prompt_len, output),
        output.len() > 1,
    ensures
        plan->verify_tokens@ == seq![plan->Verify_first_token] + plan->draft_tokens@,
        plan->aligned == plan->verify_tokens@.len() - 1,
        plan->Verify_token_len == prompt_len + plan->verify_tokens@.len(),
        output == plan->verify_tokens@.push(plan->bonus),
{
    assert(plan->verify_tokens@ == seq![plan->Verify_first_token] + plan->draft_tokens@);
    assert(output == plan->verify_tokens@.push(plan->bonus));
}

} // verus!
