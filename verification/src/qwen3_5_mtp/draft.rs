//! Drafting blocks and the drafter's cache bookkeeping.

use vstd::prelude::*;
use vstd::slice::slice_subrange;
use crate::qwen3_5_mtp::constraint::{
    rebuild_history,
    spliced,
    ConstraintCommit,
    ConstraintError,
    ConstraintMask,
};
use crate::tokens::{append_tokens, contains_token};

verus! {

/// Number of tokens to draft in a round: one less than the verify block, never more than the
/// budget that is left.
pub fn round_proposal_count(block_size: usize, remaining: usize) -> (count: usize)
    ensures
        count == vstd::math::min(vstd::math::max(block_size - 1, 0), remaining as int),
{
    let wanted: usize = block_size.saturating_sub(1);
    if wanted < remaining {
        wanted
    } else {
        remaining
    }
}

/// Drops from the drafter's cache the rows of drafted tokens that were not accepted. Returns how
/// many of the appended rows stay.
pub fn trim_draft_cache(cache_offset: &mut i32, round_appended: usize, accepted: usize) -> (kept:
    usize)
    requires
        round_appended <= *old(cache_offset),
    ensures
        kept == vstd::math::min(accepted as int, round_appended as int),
        *final(cache_offset) == *old(cache_offset) - (round_appended - kept),
{
    let kept: usize = if accepted < round_appended {
        accepted
    } else {
        round_appended
    };
    let trim: usize = round_appended - kept;
    if trim > 0 {
        *cache_offset = *cache_offset - trim as i32;
    }
    kept
}

/// What the drafter has to run through its layer after a verification.
#[derive(Debug)]
pub struct ReconcilePlan {
    /// Rows to drop from the drafter's cache first.
    pub trim: usize,
    /// Tokens to feed, nothing to do when empty.
    pub tokens: Vec<i32>,
    /// First row of the verified hidden states to pair with `tokens`.
    pub hidden_start: usize,
    /// End of those rows.
    pub hidden_end: usize,
}

/// Bookkeeping of the drafter between forwards. The arrays themselves stay with the caller.
#[derive(Debug, Clone, Copy, PartialEq, Eq, Structural)]
pub struct DraftState {
    /// Rows in the drafter's cache.
    pub cache_offset: i32,
    /// Whether a hidden state is kept to draft the next token from.
    pub seeded: bool,
    /// Offset between cache rows and rotary positions, after a multimodal prompt.
    pub rope_delta: Option<i32>,
    /// Rows appended since the round began.
    pub round_appended: usize,
}

impl DraftState {
    /// Rows appended in the round are rows of the cache.
    pub open spec fn wf(&self) -> bool {
        self.round_appended <= self.cache_offset
    }

    /// An empty drafter.
    pub fn new() -> (state: Self)
        ensures
            state.wf(),
            state.cache_offset == 0,
            !state.seeded,
            state.rope_delta is None,
            state.round_appended == 0,
    {
        DraftState { cache_offset: 0, seeded: false, rope_delta: None, round_appended: 0 }
    }

    /// Records a prefill chunk of `rows` shifted rows; with `seed` its last hidden state is kept.
    pub fn prefill_target_chunk(&mut self, rows: usize, rope_delta: Option<i32>, seed: bool)
        requires
            old(self).wf(),
            old(self).cache_offset + rows <= i32::MAX,
        ensures
            final(self).wf(),
            final(self).cache_offset == old(self).cache_offset + rows,
            final(self).rope_delta == rope_delta,
            final(self).seeded == (old(self).seeded || seed),
            final(self).round_appended == old(self).round_appended,
    {
        self.rope_delta = rope_delta;
        self.cache_offset = self.cache_offset + rows as i32;
        if seed {
            self.seeded = true;
        }
    }

    /// Starts drafting. The kept hidden state is used up; without one the last emitted token has
    /// to be run first, which the result tells, and takes one cache row.
    pub fn begin_block(&mut self) -> (run_bonus: bool)
        requires
            0 <= old(self).cache_offset < i32::MAX,
        ensures
            final(self).wf(),
            run_bonus == !old(self).seeded,
            !final(self).seeded,
            final(self).rope_delta == old(self).rope_delta,
            final(self).round_appended == (if run_bonus { 1int } else { 0 }),
            final(self).cache_offset == old(self).cache_offset + final(self).round_appended,
    {
        let run_bonus = !self.seeded;
        self.seeded = false;
        self.round_appended = 0;
        if run_bonus {
            self.cache_offset = self.cache_offset + 1;
            self.round_appended = 1;
        }
        run_bonus
    }

    /// Records that a drafted token was run to draft the next one.
    pub fn append_drafted(&mut self)
        requires
            old(self).wf(),
            old(self).cache_offset < i32::MAX,
        ensures
            final(self).wf(),
            final(self).cache_offset == old(self).cache_offset + 1,
            final(self).round_appended == old(self).round_appended + 1,
            final(self).seeded == old(self).seeded,
            final(self).rope_delta == old(self).rope_delta,
    {
        self.cache_offset = self.cache_offset + 1;
        self.round_appended = self.round_appended + 1;
    }

    /// Brings the drafter to the verified tokens: keeps the rows of accepted drafts, feeds the
    /// accepted drafts that were not run yet and then the last new token.
    pub fn accept_verified_tokens(
        &mut self,
        draft_tokens: &[i32],
        accepted: usize,
        new_tokens: &[i32],
        hidden_rows: usize,
    ) -> (plan: ReconcilePlan)
        requires
            old(self).wf(),
            vstd::math::min(accepted as int, old(self).round_appended as int)
                <= draft_tokens@.len(),
            old(self).cache_offset + vstd::math::min(
                accepted as int,
                draft_tokens@.len() as int,
            ) < i32::MAX,
        ensures
            final(self).wf(),
            ({
                let kept = vstd::math::min(accepted as int, old(self).round_appended as int);
                let fed = draft_tokens@.subrange(
                    kept,
                    vstd::math::min(accepted as int, draft_tokens@.len() as int),
                );
                &&& plan.trim == old(self).round_appended - kept
                &&& plan.tokens@ == (if new_tokens@.len() == 0 {
                    fed
                } else {
                    fed.push(new_tokens@.last())
                })
                &&& plan.hidden_start == kept
                &&& plan.hidden_end == vstd::math::min(accepted as int + 1, hidden_rows as int)
                &&& final(self).cache_offset == old(self).cache_offset - plan.trim
                    + plan.tokens@.len()
                &&& final(self).seeded == (old(self).seeded || plan.tokens@.len() > 0)
                &&& final(self).rope_delta == old(self).rope_delta
                &&& final(self).round_appended == 0
            }),
    {
        let appended: usize = self.round_appended;
        let mut offset: i32 = self.cache_offset;
        let kept: usize = trim_draft_cache(&mut offset, appended, accepted);
        let mut tokens: Vec<i32> = Vec::new();
        let end: usize = if accepted < draft_tokens.len() {
            accepted
        } else {
            draft_tokens.len()
        };
        append_tokens(&mut tokens, slice_subrange(draft_tokens, kept, end));
        assert(tokens@ == draft_tokens@.subrange(kept as int, end as int));
        if new_tokens.len() > 0 {
            tokens.push(new_tokens[new_tokens.len() - 1]);
        }
        let hidden_end: usize = if accepted < hidden_rows {
            accepted + 1
        } else {
            hidden_rows
        };
        if tokens.len() > 0 {
            offset = offset + tokens.len() as i32;
            self.seeded = true;
        }
        self.cache_offset = offset;
        self.round_appended = 0;
        ReconcilePlan { trim: appended - kept, tokens, hidden_start: kept, hidden_end }
    }

    /// Brings the drafter to the boundary of `token_len` target tokens, where it holds one row
    /// less. Returns the rows to drop, or nothing when the drafter does not reach that far; the
    /// kept hidden state, the rotary offset and the round are forgotten once it does.
    pub fn capture_prompt_snapshot(&mut self, token_len: usize) -> (trim: Option<i32>)
        ensures
            match trim {
                Some(trim) => {
                    &&& 1 <= token_len
                    &&& token_len - 1 <= old(self).cache_offset
                    &&& trim == old(self).cache_offset - (token_len - 1)
                    &&& *final(self) == (DraftState {
                        cache_offset: (token_len - 1) as i32,
                        seeded: false,
                        rope_delta: None,
                        round_appended: 0,
                    })
                },
                None => {
                    &&& token_len == 0 || token_len - 1 > old(self).cache_offset
                    &&& *final(self) == *old(self)
                },
            },
    {
        if token_len == 0 || token_len - 1 > i32::MAX as usize {
            return None;
        }
        let expected: i32 = (token_len - 1) as i32;
        if self.cache_offset < expected {
            return None;
        }
        let excess: i32 = self.cache_offset - expected;
        *self = DraftState {
            cache_offset: expected,
            seeded: false,
            rope_delta: None,
            round_appended: 0,
        };
        Some(excess)
    }
}

/// After every drafted block the drafter holds as many rows as the target: one per accepted draft
/// and one for the last new token, on top of the rows that both had when the round began.
pub proof fn reconciled_drafter_matches_target(
    before: DraftState,
    after: DraftState,
    plan: ReconcilePlan,
    prefix: int,
    draft_tokens: Seq<i32>,
    accepted: nat,
    new_tokens: Seq<i32>,
    hidden_rows: nat,
)
    requires
        before.wf(),
        before.cache_offset == prefix + before.round_appended,
        accepted <= draft_tokens.len(),
        accepted < hidden_rows,
        new_tokens.len() > 0,
        ({
            let kept = vstd::math::min(accepted as int, before.round_appended as int);
            &&& plan.trim == before.round_appended - kept
            &&& plan.tokens@ == draft_tokens.subrange(kept, accepted as int).push(
                new_tokens.last(),
            )
            &&& plan.hidden_start == kept
            &&& plan.hidden_end == vstd::math::min(accepted as int + 1, hidden_rows as int)
            &&& after.cache_offset == before.cache_offset - plan.trim + plan.tokens@.len()
        }),
    ensures
        after.cache_offset == prefix + accepted + 1,
        plan.tokens@.len() == plan.hidden_end - plan.hidden_start,
{
}

/// A block of drafted tokens being built.
#[derive(Debug)]
pub struct DraftBlock {
    tokens: Vec<i32>,
    history: Vec<i32>,
    eos_tokens: Vec<i32>,
    proposal_count: usize,
}

impl DraftBlock {
    pub closed spec fn tokens(&self) -> Seq<i32> {
        self.tokens@
    }

    pub closed spec fn history(&self) -> Seq<i32> {
        self.history@
    }

    pub closed spec fn eos(&self) -> Seq<i32> {
        self.eos_tokens@
    }

    pub closed spec fn proposal_count(&self) -> nat {
        self.proposal_count as nat
    }

    /// Whether another token is to be drafted.
    pub open spec fn open_ended(&self) -> bool {
        &&& self.tokens().len() < self.proposal_count()
        &&& self.tokens().len() > 0 ==> !self.eos().contains(self.tokens().last())
    }

    /// An end-of-sequence token can only be the last one, and the block never exceeds its size.
    pub open spec fn wf(&self) -> bool {
        &&& self.tokens().len() <= self.proposal_count()
        &&& forall|i: int|
            0 <= i < self.tokens().len() - 1 ==> !self.eos().contains(#[trigger] self.tokens()[i])
    }

    /// An empty block on top of the committed history.
    pub fn new(committed_history: Vec<i32>, eos_tokens: Vec<i32>, proposal_count: usize) -> (block:
        Self)
        ensures
            block.wf(),
            block.tokens() == Seq::<i32>::empty(),
            block.history() == committed_history@,
            block.eos() == eos_tokens@,
            block.proposal_count() == proposal_count,
    {
        DraftBlock { tokens: Vec::new(), history: committed_history, eos_tokens, proposal_count }
    }

    /// Whether another token is to be drafted.
    pub fn wants_token(&self) -> (more: bool)
        ensures
            more == self.open_ended(),
    {
        let length: usize = self.tokens.len();
        length < self.proposal_count && (length == 0 || !contains_token(
            self.eos_tokens.as_slice(),
            self.tokens[length - 1],
        ))
    }

    /// The tokens that condition the next sample.
    pub fn current_history(&self) -> (history: &Vec<i32>)
        ensures
            history@ == self.history(),
    {
        &self.history
    }

    /// The drafted tokens.
    pub fn drafted(&self) -> (tokens: &Vec<i32>)
        ensures
            tokens@ == self.tokens(),
    {
        &self.tokens
    }

    /// Adds a sampled token. Returns whether drafting goes on, in which case the token has been
    /// added to the history and is to be run through the drafter.
    pub fn push(&mut self, token: i32) -> (more: bool)
        requires
            old(self).wf(),
            old(self).open_ended(),
        ensures
            final(self).wf(),
            final(self).eos() == old(self).eos(),
            final(self).proposal_count() == old(self).proposal_count(),
            final(self).tokens() == old(self).tokens().push(token),
            more == final(self).open_ended(),
            final(self).history() == (if more {
                old(self).history().push(token)
            } else {
                old(self).history()
            }),
    {
        self.tokens.push(token);
        if contains_token(self.eos_tokens.as_slice(), token) || self.tokens.len()
            == self.proposal_count {
            return false;
        }
        self.history.push(token);
        true
    }
}

/// What a constrained block waits for.
#[derive(Debug, Clone, Copy, PartialEq, Eq, Structural)]
pub enum DraftPhase {
    Mask,
    Token,
    Commit { token: i32 },
    Done,
}

/// A block of drafted tokens whose choice a constraint restricts. The constraint's commits are
/// tried out on a copy of the output.
#[derive(Debug)]
pub struct ConstrainedDraftBlock {
    tokens: Vec<i32>,
    prompt_tokens: Vec<i32>,
    output: Vec<i32>,
    history: Vec<i32>,
    eos_tokens: Vec<i32>,
    proposal_count: usize,
    phase: DraftPhase,
}

impl ConstrainedDraftBlock {
    pub closed spec fn tokens(&self) -> Seq<i32> {
        self.tokens@
    }

    pub closed spec fn prompt(&self) -> Seq<i32> {
        self.prompt_tokens@
    }

    pub closed spec fn output(&self) -> Seq<i32> {
        self.output@
    }

    pub closed spec fn history(&self) -> Seq<i32> {
        self.history@
    }

    pub closed spec fn eos(&self) -> Seq<i32> {
        self.eos_tokens@
    }

    pub closed spec fn proposal_count(&self) -> nat {
        self.proposal_count as nat
    }

    pub closed spec fn phase(&self) -> DraftPhase {
        self.phase
    }

    pub open spec fn wf(&self) -> bool {
        &&& self.tokens().len() <= self.proposal_count()
        &&& match self.phase() {
            DraftPhase::Mask | DraftPhase::Token => self.tokens().len() < self.proposal_count()
                && self.history() == self.prompt() + self.output(),
            DraftPhase::Commit { token } => self.tokens().len() > 0 && self.tokens().last()
                == token && !self.eos().contains(token) && self.history() == self.prompt()
                + self.output(),
            DraftPhase::Done => true,
        }
    }

    /// What a step never changes.
    pub open spec fn same_request(&self, other: &Self) -> bool {
        &&& self.prompt() == other.prompt()
        &&& self.eos() == other.eos()
        &&& self.proposal_count() == other.proposal_count()
    }

    /// An empty block on top of the committed output.
    pub fn new(
        prompt_tokens: Vec<i32>,
        committed_output: Vec<i32>,
        eos_tokens: Vec<i32>,
        proposal_count: usize,
    ) -> (block: Self)
        ensures
            block.wf(),
            block.tokens() == Seq::<i32>::empty(),
            block.prompt() == prompt_tokens@,
            block.output() == committed_output@,
            block.history() == prompt_tokens@ + committed_output@,
            block.eos() == eos_tokens@,
            block.proposal_count() == proposal_count,
            block.phase() == (if proposal_count == 0 { DraftPhase::Done } else { DraftPhase::Mask }),
    {
        let mut history: Vec<i32> = Vec::new();
        rebuild_history(prompt_tokens.as_slice(), committed_output.as_slice(), &mut history);
        ConstrainedDraftBlock {
            tokens: Vec::new(),
            prompt_tokens,
            output: committed_output,
            history,
            eos_tokens,
            proposal_count,
            phase: if proposal_count == 0 {
                DraftPhase::Done
            } else {
                DraftPhase::Mask
            },
        }
    }

    /// What the block waits for.
    pub fn current_phase(&self) -> (phase: DraftPhase)
        ensures
            phase == self.phase(),
    {
        self.phase
    }

    /// The tokens that condition the next mask or sample.
    pub fn current_history(&self) -> (history: &Vec<i32>)
        ensures
            history@ == self.history(),
    {
        &self.history
    }

    /// The drafted tokens.
    pub fn drafted(&self) -> (tokens: &Vec<i32>)
        ensures
            tokens@ == self.tokens(),
    {
        &self.tokens
    }

    /// Takes in the constraint's mask: an allowed choice leads to the token, anything else ends
    /// the block. A splice has to fit the output even so.
    pub fn mask(&mut self, mask: &ConstraintMask) -> (result: Result<(), ConstraintError>)
        requires
            old(self).wf(),
            old(self).phase() == DraftPhase::Mask,
        ensures
            final(self).wf(),
            final(self).same_request(old(self)),
            final(self).tokens() == old(self).tokens(),
            match mask {
                ConstraintMask::Allow => result is Ok && final(self).phase() == DraftPhase::Token
                    && final(self).output() == old(self).output() && final(self).history() == old(
                    self,
                ).history(),
                ConstraintMask::Splice(commit) => {
                    &&& final(self).phase() == DraftPhase::Done
                    &&& match result {
                        Ok(_) => commit.backtrack <= old(self).output().len(),
                        Err(error) => commit.backtrack > old(self).output().len() && error
                            == ConstraintError::BacktrackBeyondOutput,
                    }
                },
                ConstraintMask::Accept => result is Ok && final(self).phase() == DraftPhase::Done,
            },
    {
        match mask {
            ConstraintMask::Allow => {
                self.phase = DraftPhase::Token;
                Ok(())
            },
            ConstraintMask::Splice(commit) => {
                self.phase = DraftPhase::Done;
                commit.apply_to(&mut self.output)
            },
            ConstraintMask::Accept => {
                self.phase = DraftPhase::Done;
                Ok(())
            },
        }
    }

    /// Adds a sampled token. An end-of-sequence token ends the block without a commit.
    pub fn token(&mut self, token: i32)
        requires
            old(self).wf(),
            old(self).phase() == DraftPhase::Token,
        ensures
            final(self).wf(),
            final(self).same_request(old(self)),
            final(self).tokens() == old(self).tokens().push(token),
            final(self).output() == old(self).output(),
            final(self).history() == old(self).history(),
            final(self).phase() == (if old(self).eos().contains(token) {
                DraftPhase::Done
            } else {
                DraftPhase::Commit { token }
            }),
    {
        self.tokens.push(token);
        if contains_token(self.eos_tokens.as_slice(), token) {
            self.phase = DraftPhase::Done;
        } else {
            self.phase = DraftPhase::Commit { token };
        }
    }

    /// Takes in the constraint's commit of the drafted token. Returns whether drafting goes on,
    /// in which case the token is to be run through the drafter.
    pub fn commit(&mut self, commit: &ConstraintCommit) -> (result: Result<bool, ConstraintError>)
        requires
            old(self).wf(),
            old(self).phase() is Commit,
        ensures
            final(self).wf(),
            final(self).same_request(old(self)),
            final(self).tokens() == old(self).tokens(),
            ({
                let token = old(self).phase()->token;
                if commit.backtrack > old(self).output().len() {
                    &&& result == Err::<bool, ConstraintError>(
                        ConstraintError::BacktrackBeyondOutput,
                    )
                    &&& final(self).phase() == DraftPhase::Done
                } else {
                    let more = commit.appends_only(token) && !commit.accept && old(
                        self,
                    ).tokens().len() < old(self).proposal_count();
                    &&& result == Ok::<bool, ConstraintError>(more)
                    &&& final(self).phase() == (if more {
                        DraftPhase::Mask
                    } else {
                        DraftPhase::Done
                    })
                    &&& final(self).output() == spliced(
                        old(self).output(),
                        commit.backtrack as nat,
                        commit.tokens@,
                    )
                    &&& final(self).history() == old(self).prompt() + final(self).output()
                }
            }),
    {
        let token: i32 = match self.phase {
            DraftPhase::Commit { token } => token,
            _ => {
                assert(false);
                0
            },
        };
        let changed = !commit.is_token(token);
        match commit.apply_to(&mut self.output) {
            Err(error) => {
                self.phase = DraftPhase::Done;
                return Err(error);
            },
            Ok(_) => {},
        }
        rebuild_history(self.prompt_tokens.as_slice(), self.output.as_slice(), &mut self.history);
        if changed || commit.accept || self.tokens.len() == self.proposal_count {
            self.phase = DraftPhase::Done;
            Ok(false)
        } else {
            self.phase = DraftPhase::Mask;
            Ok(true)
        }
    }
}

} // verus!
