//! Walks whose output is shaped by a token constraint.
//!
//! A constraint may rewrite the output: a commit removes trailing tokens and appends others. The
//! walk below is driven from outside, one report at a time, because masks, samples and commits
//! come from the model and from the constraint.

use vstd::prelude::*;
use crate::qwen3_5_mtp::walk::{truncated, GenerationStopReason};
use crate::tokens::{append_tokens, contains_token};

verus! {

/// How a constraint changes the output after a token was offered to it.
#[derive(Debug)]
pub struct ConstraintCommit {
    /// Trailing output tokens to remove.
    pub backtrack: usize,
    /// Tokens to append afterwards.
    pub tokens: Vec<i32>,
    /// Whether the output is complete.
    pub accept: bool,
}

/// A commit removes more tokens than the output holds.
#[derive(Debug, Clone, Copy, PartialEq, Eq, Structural)]
pub enum ConstraintError {
    BacktrackBeyondOutput,
}

/// How a transaction of the constraint ends.
#[derive(Debug, Clone, Copy, PartialEq, Eq, Structural)]
pub enum TransactionStep {
    /// What the operation did stays.
    Commit,
    /// The constraint goes back to where the transaction began.
    Rollback,
}

/// How a transaction ends after its operation. Walks keep what they did if they succeed; drafts
/// never keep anything.
pub fn after_operation(keeps: bool, succeeded: bool) -> (step: TransactionStep)
    ensures
        step == if keeps && succeeded {
            TransactionStep::Commit
        } else {
            TransactionStep::Rollback
        },
{
    if keeps && succeeded {
        TransactionStep::Commit
    } else {
        TransactionStep::Rollback
    }
}

/// `output` after removing `backtrack` trailing tokens and appending `tokens`.
pub open spec fn spliced(output: Seq<i32>, backtrack: nat, tokens: Seq<i32>) -> Seq<i32> {
    output.take(output.len() - backtrack) + tokens
}

impl ConstraintCommit {
    /// The commit that appends exactly one token.
    pub fn token(token: i32) -> (commit: Self)
        ensures
            commit.backtrack == 0,
            commit.tokens@ == seq![token],
            !commit.accept,
    {
        let mut tokens: Vec<i32> = Vec::new();
        tokens.push(token);
        ConstraintCommit { backtrack: 0, tokens, accept: false }
    }

    /// Whether the commit appends `token` and does nothing else to the output.
    pub open spec fn appends_only(&self, token: i32) -> bool {
        self.backtrack == 0 && self.tokens@ == seq![token]
    }

    /// Whether the commit appends `token` and does nothing else to the output.
    pub fn is_token(&self, token: i32) -> (plain: bool)
        ensures
            plain == self.appends_only(token),
    {
        if self.backtrack == 0 && self.tokens.len() == 1 && self.tokens[0] == token {
            assert(self.tokens@ == seq![token]);
            true
        } else {
            assert(self.tokens@ == seq![token] ==> self.tokens@[0] == token);
            false
        }
    }

    /// Rewrites `output`; refuses, and leaves it alone, when fewer tokens are there than the
    /// commit removes.
    pub fn apply_to(&self, output: &mut Vec<i32>) -> (result: Result<(), ConstraintError>)
        ensures
            match result {
                Ok(_) => self.backtrack <= old(output)@.len() && final(output)@ == spliced(
                    old(output)@,
                    self.backtrack as nat,
                    self.tokens@,
                ),
                Err(error) => self.backtrack > old(output)@.len() && error
                    == ConstraintError::BacktrackBeyondOutput && final(output)@ == old(output)@,
            },
    {
        if self.backtrack > output.len() {
            return Err(ConstraintError::BacktrackBeyondOutput);
        }
        let kept: usize = output.len() - self.backtrack;
        output.truncate(kept);
        append_tokens(output, self.tokens.as_slice());
        Ok(())
    }
}

/// Sets `history` to the prompt followed by the output.
pub fn rebuild_history(prompt_tokens: &[i32], output: &[i32], history: &mut Vec<i32>)
    ensures
        final(history)@ == prompt_tokens@ + output@,
{
    history.clear();
    append_tokens(history, prompt_tokens);
    append_tokens(history, output);
}

/// Why a walk stops after the constraint rewrote the output.
pub open spec fn commit_stop(
    accept: bool,
    output_len: nat,
    max_tokens: nat,
) -> Option<GenerationStopReason> {
    if accept {
        Some(GenerationStopReason::ConstraintAccepted)
    } else if output_len == max_tokens {
        Some(GenerationStopReason::MaxTokens)
    } else {
        None
    }
}

/// The output that a commit leaves, cut to the token budget.
pub open spec fn committed_output(
    output: Seq<i32>,
    commit: ConstraintCommit,
    max_tokens: nat,
) -> Seq<i32> {
    truncated(spliced(output, commit.backtrack as nat, commit.tokens@), max_tokens)
}

/// Applies a commit that the constraint asked for without a sampled token. Returns why the walk
/// stops, if it does.
pub fn apply_walk_splice(
    commit: &ConstraintCommit,
    prompt_tokens: &[i32],
    output: &mut Vec<i32>,
    history: &mut Vec<i32>,
    max_tokens: usize,
) -> (result: Result<Option<GenerationStopReason>, ConstraintError>)
    ensures
        match result {
            Ok(stop) => {
                &&& commit.backtrack <= old(output)@.len()
                &&& final(output)@ == committed_output(old(output)@, *commit, max_tokens as nat)
                &&& final(history)@ == prompt_tokens@ + final(output)@
                &&& stop == commit_stop(commit.accept, final(output)@.len(), max_tokens as nat)
            },
            Err(error) => {
                &&& commit.backtrack > old(output)@.len()
                &&& error == ConstraintError::BacktrackBeyondOutput
                &&& final(output)@ == old(output)@
                &&& final(history)@ == old(history)@
            },
        },
{
    match commit.apply_to(output) {
        Err(error) => {
            return Err(error);
        },
        Ok(_) => {},
    }
    if output.len() > max_tokens {
        output.truncate(max_tokens);
    }
    rebuild_history(prompt_tokens, output.as_slice(), history);
    Ok(
        if commit.accept {
            Some(GenerationStopReason::ConstraintAccepted)
        } else if output.len() == max_tokens {
            Some(GenerationStopReason::MaxTokens)
        } else {
            None
        },
    )
}

/// Applies the commit of a sampled token. Besides the stop reason it tells whether the caches
/// have to be rebuilt because the commit did more than append the sampled token.
pub fn apply_walk_commit(
    sampled: i32,
    commit: &ConstraintCommit,
    prompt_tokens: &[i32],
    output: &mut Vec<i32>,
    history: &mut Vec<i32>,
    max_tokens: usize,
) -> (result: Result<(bool, Option<GenerationStopReason>), ConstraintError>)
    ensures
        match result {
            Ok((rebuild, stop)) => {
                &&& commit.backtrack <= old(output)@.len()
                &&& rebuild == !commit.appends_only(sampled)
                &&& final(output)@ == committed_output(old(output)@, *commit, max_tokens as nat)
                &&& final(history)@ == prompt_tokens@ + final(output)@
                &&& stop == commit_stop(commit.accept, final(output)@.len(), max_tokens as nat)
            },
            Err(error) => {
                &&& commit.backtrack > old(output)@.len()
                &&& error == ConstraintError::BacktrackBeyondOutput
                &&& final(output)@ == old(output)@
                &&& final(history)@ == old(history)@
            },
        },
{
    let rebuild = !commit.is_token(sampled);
    match apply_walk_splice(commit, prompt_tokens, output, history, max_tokens) {
        Ok(stop) => Ok((rebuild, stop)),
        Err(error) => Err(error),
    }
}

/// Outcome of a constrained walk.
#[derive(Debug)]
pub struct ConstrainedWalk {
    /// Drafted tokens that the target confirmed.
    pub accepted: usize,
    /// Tokens that were chosen, an end-of-sequence token included.
    pub new_tokens: Vec<i32>,
    /// The whole output so far.
    pub output: Vec<i32>,
    /// Whether the constraint rewrote the output, so that caches no longer match it.
    pub rebuild: bool,
    pub stop_reason: Option<GenerationStopReason>,
}

/// What the constraint says before a token is chosen.
#[derive(Debug)]
pub enum ConstraintMask {
    /// A token may be chosen among the allowed ones.
    Allow,
    /// The output is to be rewritten instead.
    Splice(ConstraintCommit),
    /// The output is complete.
    Accept,
}

/// What a walk waits for.
#[derive(Debug, Clone, Copy, PartialEq, Eq, Structural)]
pub enum WalkPhase {
    /// The constraint's mask for the current position.
    Mask,
    /// The target's token at the current position.
    Token,
    /// The constraint's commit of `token`; `keeps_draft` tells whether it is the drafted one.
    Commit { token: i32, keeps_draft: bool },
    /// Nothing: the walk is over.
    Done,
}

/// A constrained walk over a block of drafted tokens, with one more position for the target's
/// bonus token. With an empty block it is the first step after a prefill.
pub struct ConstrainedWalkState {
    draft_tokens: Vec<i32>,
    prompt_tokens: Vec<i32>,
    eos_tokens: Vec<i32>,
    max_tokens: usize,
    committed: Ghost<Seq<i32>>,
    output: Vec<i32>,
    history: Vec<i32>,
    accepted: usize,
    new_tokens: Vec<i32>,
    position: usize,
    phase: WalkPhase,
}

impl ConstrainedWalkState {
    pub closed spec fn draft(&self) -> Seq<i32> {
        self.draft_tokens@
    }

    pub closed spec fn prompt(&self) -> Seq<i32> {
        self.prompt_tokens@
    }

    pub closed spec fn eos(&self) -> Seq<i32> {
        self.eos_tokens@
    }

    pub closed spec fn max_tokens(&self) -> nat {
        self.max_tokens as nat
    }

    /// The output that the walk started from.
    pub closed spec fn committed(&self) -> Seq<i32> {
        self.committed@
    }

    pub closed spec fn output(&self) -> Seq<i32> {
        self.output@
    }

    /// The tokens that condition masks and samples.
    pub closed spec fn history(&self) -> Seq<i32> {
        self.history@
    }

    pub closed spec fn accepted(&self) -> nat {
        self.accepted as nat
    }

    pub closed spec fn new_tokens(&self) -> Seq<i32> {
        self.new_tokens@
    }

    pub closed spec fn position(&self) -> nat {
        self.position as nat
    }

    pub closed spec fn phase(&self) -> WalkPhase {
        self.phase
    }

    /// While a walk runs, everything chosen so far is the drafted prefix, it has been appended to
    /// the output it started from, and the history is the prompt followed by the output.
    pub open spec fn wf(&self) -> bool {
        let position = self.position();
        &&& position <= self.draft().len() <= usize::MAX
        &&& self.accepted() <= position + 1
        &&& self.accepted() <= self.draft().len()
        &&& match self.phase() {
            WalkPhase::Mask | WalkPhase::Token => {
                &&& self.history() == self.prompt() + self.output()
                &&& self.accepted() <= position
                &&& self.new_tokens() == self.draft().take(position as int)
                &&& self.output() == self.committed() + self.new_tokens()
                &&& position > 0 ==> self.output().len() < self.max_tokens()
            },
            WalkPhase::Commit { token, keeps_draft } => {
                &&& self.history() == self.prompt() + self.output()
                &&& self.new_tokens() == self.draft().take(position as int).push(token)
                &&& self.output() == self.committed() + self.draft().take(position as int)
                &&& position > 0 ==> self.output().len() < self.max_tokens()
                &&& keeps_draft == (position < self.draft().len() && token
                    == self.draft()[position as int])
                &&& !self.eos().contains(token)
            },
            WalkPhase::Done => true,
        }
    }

    /// What a step never changes.
    pub open spec fn same_request(&self, other: &Self) -> bool {
        &&& self.draft() == other.draft()
        &&& self.prompt() == other.prompt()
        &&& self.eos() == other.eos()
        &&& self.max_tokens() == other.max_tokens()
        &&& self.committed() == other.committed()
    }

    /// Starts a walk over `draft_tokens` on top of `committed_output`.
    pub fn new(
        draft_tokens: Vec<i32>,
        prompt_tokens: Vec<i32>,
        committed_output: Vec<i32>,
        eos_tokens: Vec<i32>,
        max_tokens: usize,
    ) -> (walk: Self)
        ensures
            walk.wf(),
            walk.phase() == WalkPhase::Mask,
            walk.position() == 0,
            walk.accepted() == 0,
            walk.draft() == draft_tokens@,
            walk.prompt() == prompt_tokens@,
            walk.eos() == eos_tokens@,
            walk.max_tokens() == max_tokens,
            walk.committed() == committed_output@,
            walk.output() == committed_output@,
    {
        let mut history: Vec<i32> = Vec::new();
        rebuild_history(prompt_tokens.as_slice(), committed_output.as_slice(), &mut history);
        let length: usize = draft_tokens.len();
        assert(length <= usize::MAX);
        let walk = ConstrainedWalkState {
            committed: Ghost(committed_output@),
            draft_tokens,
            prompt_tokens,
            eos_tokens,
            max_tokens,
            output: committed_output,
            history,
            accepted: 0,
            new_tokens: Vec::new(),
            position: 0,
            phase: WalkPhase::Mask,
        };
        assert(walk.new_tokens() == walk.draft().take(0));
        assert(walk.output() == walk.committed() + walk.new_tokens());
        walk
    }

    /// What the walk waits for.
    pub fn current_phase(&self) -> (phase: WalkPhase)
        ensures
            phase == self.phase(),
    {
        self.phase
    }

    /// The row of the verification logits that the next mask and token belong to.
    pub fn current_position(&self) -> (position: usize)
        ensures
            position == self.position(),
    {
        self.position
    }

    /// The tokens that condition the next mask or sample.
    pub fn current_history(&self) -> (history: &Vec<i32>)
        ensures
            history@ == self.history(),
    {
        &self.history
    }

    fn finish(
        &mut self,
        rebuild: bool,
        stop_reason: Option<GenerationStopReason>,
    ) -> (walk: ConstrainedWalk)
        ensures
            walk.accepted == old(self).accepted(),
            walk.new_tokens@ == old(self).new_tokens(),
            walk.output@ == old(self).output(),
            walk.rebuild == rebuild,
            walk.stop_reason == stop_reason,
            final(self).same_request(old(self)),
            final(self).phase() == WalkPhase::Done,
            final(self).accepted() == old(self).accepted(),
            final(self).position() == old(self).position(),
    {
        let mut new_tokens: Vec<i32> = Vec::new();
        append_tokens(&mut new_tokens, self.new_tokens.as_slice());
        let mut output: Vec<i32> = Vec::new();
        append_tokens(&mut output, self.output.as_slice());
        self.phase = WalkPhase::Done;
        assert(new_tokens@ == self.new_tokens@);
        assert(output@ == self.output@);
        ConstrainedWalk { accepted: self.accepted, new_tokens, output, rebuild, stop_reason }
    }

    /// Takes in the constraint's mask. An allowed choice leads to the token; a splice or a
    /// completed output ends the walk.
    pub fn mask(&mut self, mask: &ConstraintMask) -> (result: Result<
        Option<ConstrainedWalk>,
        ConstraintError,
    >)
        requires
            old(self).wf(),
            old(self).phase() == WalkPhase::Mask,
        ensures
            final(self).wf(),
            final(self).same_request(old(self)),
            match mask {
                ConstraintMask::Allow => {
                    &&& result == Ok::<Option<ConstrainedWalk>, ConstraintError>(None)
                    &&& final(self).phase() == WalkPhase::Token
                    &&& final(self).position() == old(self).position()
                    &&& final(self).accepted() == old(self).accepted()
                    &&& final(self).output() == old(self).output()
                    &&& final(self).history() == old(self).history()
                },
                ConstraintMask::Splice(commit) => if commit.backtrack > old(self).output().len() {
                    &&& result == Err::<Option<ConstrainedWalk>, ConstraintError>(
                        ConstraintError::BacktrackBeyondOutput,
                    )
                    &&& final(self).phase() == WalkPhase::Done
                } else {
                    &&& result matches Ok(Some(walk))
                    &&& walk.accepted == old(self).accepted()
                    &&& walk.new_tokens@ == old(self).new_tokens()
                    &&& walk.output@ == committed_output(
                        old(self).output(),
                        *commit,
                        old(self).max_tokens(),
                    )
                    &&& walk.rebuild
                    &&& walk.stop_reason == commit_stop(
                        commit.accept,
                        walk.output@.len(),
                        old(self).max_tokens(),
                    )
                    &&& final(self).phase() == WalkPhase::Done
                },
                ConstraintMask::Accept => {
                    &&& result matches Ok(Some(walk))
                    &&& walk.accepted == old(self).accepted()
                    &&& walk.new_tokens@ == old(self).new_tokens()
                    &&& walk.output@ == old(self).output()
                    &&& !walk.rebuild
                    &&& walk.stop_reason == Some(GenerationStopReason::ConstraintAccepted)
                    &&& final(self).phase() == WalkPhase::Done
                },
            },
    {
        match mask {
            ConstraintMask::Allow => {
                self.phase = WalkPhase::Token;
                Ok(None)
            },
            ConstraintMask::Splice(commit) => {
                let applied = apply_walk_splice(
                    commit,
                    self.prompt_tokens.as_slice(),
                    &mut self.output,
                    &mut self.history,
                    self.max_tokens,
                );
                match applied {
                    Ok(stop) => Ok(Some(self.finish(true, stop))),
                    Err(error) => {
                        self.phase = WalkPhase::Done;
                        Err(error)
                    },
                }
            },
            ConstraintMask::Accept => Ok(
                Some(self.finish(false, Some(GenerationStopReason::ConstraintAccepted))),
            ),
        }
    }

    /// Takes in the token that greedy sampling chose at the current position. An end-of-sequence
    /// token ends the walk; it is neither counted as accepted nor committed.
    pub fn greedy_token(&mut self, token: i32) -> (finished: Option<ConstrainedWalk>)
        requires
            old(self).wf(),
            old(self).phase() == WalkPhase::Token,
        ensures
            final(self).wf(),
            final(self).same_request(old(self)),
            final(self).position() == old(self).position(),
            ({
                let position = old(self).position() as int;
                let keeps = position < old(self).draft().len() && token == old(
                    self,
                ).draft()[position];
                if old(self).eos().contains(token) {
                    &&& finished matches Some(walk)
                    &&& walk.accepted == old(self).accepted()
                    &&& walk.new_tokens@ == old(self).new_tokens().push(token)
                    &&& walk.output@ == old(self).output()
                    &&& !walk.rebuild
                    &&& walk.stop_reason == Some(GenerationStopReason::Eos)
                    &&& final(self).phase() == WalkPhase::Done
                } else {
                    &&& finished is None
                    &&& final(self).phase() == (WalkPhase::Commit { token, keeps_draft: keeps })
                    &&& final(self).accepted() == old(self).accepted() + (if keeps { 1int } else {
                        0
                    })
                    &&& final(self).output() == old(self).output()
                    &&& final(self).history() == old(self).history()
                }
            }),
    {
        self.new_tokens.push(token);
        if contains_token(self.eos_tokens.as_slice(), token) {
            return Some(self.finish(false, Some(GenerationStopReason::Eos)));
        }
        let keeps_draft = self.position < self.draft_tokens.len() && token
            == self.draft_tokens[self.position];
        if keeps_draft {
            self.accepted = self.accepted + 1;
        }
        self.phase = WalkPhase::Commit { token, keeps_draft };
        None
    }

    /// Takes in the stochastic decision about the drafted token at the current position. The
    /// acceptance counts even when the token ends the sequence.
    pub fn stochastic_verdict(&mut self, replacement: Option<i32>) -> (finished: Option<
        ConstrainedWalk,
    >)
        requires
            old(self).wf(),
            old(self).phase() == WalkPhase::Token,
            old(self).position() < old(self).draft().len(),
        ensures
            final(self).wf(),
            final(self).same_request(old(self)),
            final(self).position() == old(self).position(),
            ({
                let drafted = old(self).draft()[old(self).position() as int];
                let token = match replacement {
                    Some(other) => other,
                    None => drafted,
                };
                let accepted = old(self).accepted() + (if replacement is None { 1int } else { 0 });
                if old(self).eos().contains(token) {
                    &&& finished matches Some(walk)
                    &&& walk.accepted == accepted
                    &&& walk.new_tokens@ == old(self).new_tokens().push(token)
                    &&& walk.output@ == old(self).output()
                    &&& !walk.rebuild
                    &&& walk.stop_reason == Some(GenerationStopReason::Eos)
                    &&& final(self).phase() == WalkPhase::Done
                } else {
                    &&& finished is None
                    &&& final(self).phase() == (WalkPhase::Commit {
                        token,
                        keeps_draft: token == drafted,
                    })
                    &&& final(self).accepted() == accepted
                    &&& final(self).output() == old(self).output()
                    &&& final(self).history() == old(self).history()
                }
            }),
    {
        let drafted: i32 = self.draft_tokens[self.position];
        let token: i32 = match replacement {
            Some(other) => other,
            None => {
                self.accepted = self.accepted + 1;
                drafted
            },
        };
        self.new_tokens.push(token);
        if contains_token(self.eos_tokens.as_slice(), token) {
            return Some(self.finish(false, Some(GenerationStopReason::Eos)));
        }
        self.phase = WalkPhase::Commit { token, keeps_draft: token == drafted };
        None
    }

    /// Takes in the constraint's commit of the chosen token. The walk goes on only when the token
    /// is the drafted one, the commit appended just that token, and nothing stops it.
    pub fn commit(&mut self, commit: &ConstraintCommit) -> (result: Result<
        Option<ConstrainedWalk>,
        ConstraintError,
    >)
        requires
            old(self).wf(),
            old(self).phase() is Commit,
        ensures
            final(self).wf(),
            final(self).same_request(old(self)),
            ({
                let token = old(self).phase()->token;
                let keeps_draft = old(self).phase()->keeps_draft;
                let output = committed_output(old(self).output(), *commit, old(self).max_tokens());
                let rebuild = !commit.appends_only(token);
                let stop = commit_stop(commit.accept, output.len(), old(self).max_tokens());
                if commit.backtrack > old(self).output().len() {
                    &&& result == Err::<Option<ConstrainedWalk>, ConstraintError>(
                        ConstraintError::BacktrackBeyondOutput,
                    )
                    &&& final(self).phase() == WalkPhase::Done
                } else if !keeps_draft || rebuild || stop is Some {
                    &&& result matches Ok(Some(walk))
                    &&& walk.accepted == old(self).accepted()
                    &&& walk.new_tokens@ == old(self).new_tokens()
                    &&& walk.output@ == output
                    &&& walk.rebuild == rebuild
                    &&& walk.stop_reason == stop
                    &&& final(self).phase() == WalkPhase::Done
                } else {
                    &&& result == Ok::<Option<ConstrainedWalk>, ConstraintError>(None)
                    &&& final(self).phase() == WalkPhase::Mask
                    &&& final(self).position() == old(self).position() + 1
                    &&& final(self).accepted() == old(self).accepted()
                    &&& final(self).output() == output
                }
            }),
    {
        let (token, keeps_draft): (i32, bool) = match self.phase {
            WalkPhase::Commit { token, keeps_draft } => (token, keeps_draft),
            _ => {
                assert(false);
                (0, false)
            },
        };
        let ghost before = *self;
        let applied = apply_walk_commit(
            token,
            commit,
            self.prompt_tokens.as_slice(),
            &mut self.output,
            &mut self.history,
            self.max_tokens,
        );
        match applied {
            Err(error) => {
                self.phase = WalkPhase::Done;
                Err(error)
            },
            Ok((rebuild, stop)) => {
                if !keeps_draft || rebuild || stop.is_some() {
                    Ok(Some(self.finish(rebuild, stop)))
                } else {
                    let count: usize = self.draft_tokens.len();
                    assert(self.position < count);
                    self.position = self.position + 1;
                    self.phase = WalkPhase::Mask;
                    proof {
                        let position = before.position() as int;
                        assert(self.draft().take(position + 1) == before.draft().take(
                            position,
                        ).push(token));
                        assert(before.output().take(before.output().len() as int)
                            == before.output());
                        let whole = spliced(before.output(), 0, commit.tokens@);
                        assert(whole == before.output().push(token));
                        assert(self.output() == self.committed() + self.new_tokens());
                    }
                    Ok(None)
                }
            },
        }
    }
}

/// A walk that was not rewritten adds to the output exactly the tokens it chose, an
/// end-of-sequence token aside: while it runs the output is what it started from, followed by the
/// drafted tokens up to the position, and the history is the prompt followed by the output.
pub proof fn running_walk_output_is_committed_plus_drafted(walk: ConstrainedWalkState)
    requires
        walk.wf(),
        walk.phase() == WalkPhase::Mask || walk.phase() == WalkPhase::Token,
    ensures
        walk.output() == walk.committed() + walk.draft().take(walk.position() as int),
        walk.history() == walk.prompt() + walk.committed() + walk.draft().take(
            walk.position() as int,
        ),
        walk.accepted() <= walk.position() <= walk.draft().len(),
{
    assert(walk.history() == walk.prompt() + walk.committed() + walk.draft().take(
        walk.position() as int,
    ));
}

} // verus!
