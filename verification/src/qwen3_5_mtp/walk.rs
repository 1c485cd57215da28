//! Verification walks over a block of drafted tokens.

use vstd::prelude::*;
use crate::tokens::{append_tokens, contains_token};

verus! {

/// Why a generation ended.
#[derive(Debug, Clone, Copy, PartialEq, Eq, Structural)]
pub enum GenerationStopReason {
    /// The token budget is spent.
    MaxTokens,
    /// An end-of-sequence token was produced.
    Eos,
    /// The receiver of the stream asked to stop.
    CallbackCancelled,
    /// The constraint reported a complete output.
    ConstraintAccepted,
}

/// Outcome of one verification walk.
#[derive(Debug)]
pub struct WalkResult {
    /// Drafted tokens that the target confirmed.
    pub accepted: usize,
    /// Tokens that the walk adds to the output.
    pub new_tokens: Vec<i32>,
}

/// What the target decided about one drafted token.
#[derive(Debug, Clone, Copy, PartialEq, Eq, Structural)]
pub enum DraftVerdict {
    Accept,
    Reject { replacement: i32 },
}

/// Length of the longest common prefix of `draft` and `target`.
pub open spec fn matching_prefix(draft: Seq<i32>, target: Seq<i32>) -> nat
    decreases draft.len(),
{
    if draft.len() == 0 || target.len() == 0 || draft[0] != target[0] {
        0
    } else {
        1 + matching_prefix(draft.skip(1), target.skip(1))
    }
}

/// `seq`, cut to at most `limit` elements.
pub open spec fn truncated(seq: Seq<i32>, limit: nat) -> Seq<i32> {
    if seq.len() <= limit {
        seq
    } else {
        seq.take(limit as int)
    }
}

/// The prefix that `matching_prefix` measures: equal up to it, different right after it.
pub proof fn matching_prefix_is_longest(draft: Seq<i32>, target: Seq<i32>)
    ensures
        matching_prefix(draft, target) <= draft.len(),
        matching_prefix(draft, target) <= target.len(),
        draft.take(matching_prefix(draft, target) as int) == target.take(
            matching_prefix(draft, target) as int,
        ),
        matching_prefix(draft, target) < draft.len() && matching_prefix(draft, target)
            < target.len() ==> draft[matching_prefix(draft, target) as int]
            != target[matching_prefix(draft, target) as int],
    decreases draft.len(),
{
    if draft.len() == 0 || target.len() == 0 || draft[0] != target[0] {
    } else {
        let rest = matching_prefix(draft.skip(1), target.skip(1));
        matching_prefix_is_longest(draft.skip(1), target.skip(1));
        assert forall|i: int| 0 <= i < rest + 1 implies draft[i] == target[i] by {
            if i > 0 {
                assert(draft.skip(1).take(rest as int)[i - 1] == target.skip(1).take(rest as int)[i
                    - 1]);
            }
        }
    }
}

proof fn matching_prefix_extends(draft: Seq<i32>, target: Seq<i32>, n: nat)
    requires
        n <= draft.len(),
        n <= target.len(),
        draft.take(n as int) == target.take(n as int),
        n < draft.len() && n < target.len() ==> draft[n as int] != target[n as int],
    ensures
        matching_prefix(draft, target) == n,
{
    matching_prefix_is_longest(draft, target);
    let m = matching_prefix(draft, target);
    if m < n {
        assert(draft[m as int] == draft.take(n as int)[m as int]);
        assert(target[m as int] == target.take(n as int)[m as int]);
    } else if n < m {
        assert(draft[n as int] == draft.take(m as int)[n as int]);
        assert(target[n as int] == target.take(m as int)[n as int]);
    }
}

/// Greedy acceptance: keeps the drafted tokens that equal the target's own choice, then adds the
/// target's token at the first position after them. At most `max_new_tokens` tokens are returned;
/// the count of accepted tokens is not cut by that budget.
pub fn speculative_walk(draft: &[i32], target: &[i32], max_new_tokens: usize) -> (walk: WalkResult)
    requires
        target@.len() > draft@.len(),
    ensures
        walk.accepted == matching_prefix(draft@, target@),
        walk.new_tokens@ == truncated(
            target@.take(walk.accepted as int + 1),
            max_new_tokens as nat,
        ),
{
    let mut accepted: usize = 0;
    let mut new_tokens: Vec<i32> = Vec::new();
    while accepted < draft.len() && draft[accepted] == target[accepted]
        invariant
            accepted <= draft@.len() < target@.len(),
            forall|i: int| 0 <= i < accepted ==> draft@[i] == target@[i],
        decreases draft@.len() - accepted,
    {
        accepted = accepted + 1;
    }
    proof {
        assert(draft@.take(accepted as int) == target@.take(accepted as int));
        matching_prefix_extends(draft@, target@, accepted as nat);
    }
    let wanted: usize = if accepted < max_new_tokens {
        accepted + 1
    } else {
        max_new_tokens
    };
    append_tokens(&mut new_tokens, vstd::slice::slice_subrange(target, 0, wanted));
    assert(new_tokens@ == truncated(target@.take(accepted as int + 1), max_new_tokens as nat));
    WalkResult { accepted, new_tokens }
}

/// Stochastic acceptance of `proposals[position..]`, given what was decided so far.
///
/// `verdicts[i]` is the target's decision about `proposals[i]`, `bonus` the token it samples
/// once every proposal was accepted. Decisions after the walk ended are not looked at.
pub open spec fn stochastic_outcome(
    proposals: Seq<i32>,
    verdicts: Seq<DraftVerdict>,
    bonus: i32,
    eos: Seq<i32>,
    max_new_tokens: nat,
    position: nat,
) -> (nat, Seq<i32>)
    decreases proposals.len() - position,
{
    if position >= proposals.len() {
        let kept = proposals;
        (proposals.len(), if kept.len() < max_new_tokens { kept.push(bonus) } else { kept })
    } else {
        match verdicts[position as int] {
            DraftVerdict::Reject { replacement } => (
                position,
                proposals.take(position as int).push(replacement),
            ),
            DraftVerdict::Accept => if eos.contains(proposals[position as int]) || position + 1
                == max_new_tokens {
                (position + 1, proposals.take(position as int + 1))
            } else {
                stochastic_outcome(proposals, verdicts, bonus, eos, max_new_tokens, position + 1)
            },
        }
    }
}

/// A stochastic walk in progress. The caller asks the target about one proposal at a time and
/// reports each decision.
#[derive(Debug)]
pub struct StochasticWalk {
    proposals: Vec<i32>,
    eos_tokens: Vec<i32>,
    max_new_tokens: usize,
    history: Vec<i32>,
    position: usize,
}

/// What a stochastic walk needs next.
#[derive(Debug)]
pub enum StochasticStep {
    /// Decide about the proposal at this position.
    Verify { position: usize },
    /// Sample the bonus token from the row after the last proposal.
    SampleBonus { position: usize },
    /// The walk is over.
    Finished(WalkResult),
}

impl StochasticWalk {
    pub closed spec fn proposals(&self) -> Seq<i32> {
        self.proposals@
    }

    pub closed spec fn eos_tokens(&self) -> Seq<i32> {
        self.eos_tokens@
    }

    pub closed spec fn budget(&self) -> nat {
        self.max_new_tokens as nat
    }

    /// The tokens that condition the next decision.
    pub closed spec fn history(&self) -> Seq<i32> {
        self.history@
    }

    pub closed spec fn position(&self) -> nat {
        self.position as nat
    }

    /// Every proposal before the position was accepted and no walk end was met.
    pub closed spec fn wf(&self) -> bool {
        self.position <= self.proposals@.len()
    }

    /// Starts a walk over `proposals` on top of `committed_history`.
    pub fn new(
        proposals: Vec<i32>,
        committed_history: Vec<i32>,
        eos_tokens: Vec<i32>,
        max_new_tokens: usize,
    ) -> (walk: Self)
        ensures
            walk.wf(),
            walk.proposals() == proposals@,
            walk.eos_tokens() == eos_tokens@,
            walk.budget() == max_new_tokens,
            walk.history() == committed_history@,
            walk.position() == 0,
    {
        StochasticWalk {
            proposals,
            eos_tokens,
            max_new_tokens,
            history: committed_history,
            position: 0,
        }
    }

    /// The tokens that condition the next decision.
    pub fn current_history(&self) -> (history: &Vec<i32>)
        ensures
            history@ == self.history(),
    {
        &self.history
    }

    fn accepted_tokens(&self, count: usize) -> (tokens: Vec<i32>)
        requires
            count <= self.proposals().len(),
        ensures
            tokens@ == self.proposals().take(count as int),
    {
        let mut tokens: Vec<i32> = Vec::new();
        append_tokens(&mut tokens, vstd::slice::slice_subrange(self.proposals.as_slice(), 0, count));
        assert(tokens@ == self.proposals().take(count as int));
        tokens
    }

    /// What to do before the next report.
    pub fn next(&self) -> (step: StochasticStep)
        requires
            self.wf(),
        ensures
            match step {
                StochasticStep::Verify { position } => position == self.position() && position
                    < self.proposals().len(),
                StochasticStep::SampleBonus { position } => position == self.proposals().len()
                    && self.position() == position && position < self.budget(),
                StochasticStep::Finished(walk) => self.position() == self.proposals().len()
                    && self.budget() <= self.proposals().len() && walk.accepted
                    == self.proposals().len() && walk.new_tokens@ == self.proposals(),
            },
    {
        if self.position < self.proposals.len() {
            StochasticStep::Verify { position: self.position }
        } else if self.proposals.len() < self.max_new_tokens {
            StochasticStep::SampleBonus { position: self.position }
        } else {
            let new_tokens = self.accepted_tokens(self.proposals.len());
            assert(self.proposals().take(self.proposals().len() as int) == self.proposals());
            StochasticStep::Finished(WalkResult { accepted: self.proposals.len(), new_tokens })
        }
    }

    /// Takes in the decision about the proposal at the current position; `Some` once it ends the
    /// walk. An accepted proposal that does not end the walk conditions what follows.
    pub fn verdict(&mut self, verdict: DraftVerdict) -> (finished: Option<WalkResult>)
        requires
            old(self).wf(),
            old(self).position() < old(self).proposals().len(),
        ensures
            final(self).proposals() == old(self).proposals(),
            final(self).eos_tokens() == old(self).eos_tokens(),
            final(self).budget() == old(self).budget(),
            final(self).wf(),
            ({
                let position = old(self).position();
                let token = old(self).proposals()[position as int];
                match verdict {
                    DraftVerdict::Reject { replacement } => {
                        &&& finished matches Some(walk)
                        &&& walk.accepted == position
                        &&& walk.new_tokens@ == old(self).proposals().take(position as int).push(
                            replacement,
                        )
                        &&& final(self).position() == position
                        &&& final(self).history() == old(self).history()
                    },
                    DraftVerdict::Accept => if old(self).eos_tokens().contains(token) || position + 1
                        == old(self).budget() {
                        &&& finished matches Some(walk)
                        &&& walk.accepted == position + 1
                        &&& walk.new_tokens@ == old(self).proposals().take(position as int + 1)
                        &&& final(self).position() == position
                        &&& final(self).history() == old(self).history()
                    } else {
                        &&& finished is None
                        &&& final(self).position() == position + 1
                        &&& final(self).history() == old(self).history().push(token)
                    },
                }
            }),
    {
        match verdict {
            DraftVerdict::Reject { replacement } => {
                let mut new_tokens = self.accepted_tokens(self.position);
                new_tokens.push(replacement);
                Some(WalkResult { accepted: self.position, new_tokens })
            },
            DraftVerdict::Accept => {
                let token: i32 = self.proposals[self.position];
                let count: usize = self.proposals.len();
                assert(self.position < count);
                let accepted: usize = self.position + 1;
                if contains_token(self.eos_tokens.as_slice(), token) || accepted
                    == self.max_new_tokens {
                    let new_tokens = self.accepted_tokens(accepted);
                    Some(WalkResult { accepted, new_tokens })
                } else {
                    self.history.push(token);
                    self.position = accepted;
                    None
                }
            },
        }
    }

    /// Takes in the sampled bonus token after every proposal was accepted.
    pub fn bonus(&self, bonus: i32) -> (walk: WalkResult)
        requires
            self.wf(),
            self.position() == self.proposals().len(),
        ensures
            walk.accepted == self.proposals().len(),
            walk.new_tokens@ == self.proposals().push(bonus),
    {
        let mut new_tokens = self.accepted_tokens(self.proposals.len());
        assert(self.proposals().take(self.proposals().len() as int) == self.proposals());
        new_tokens.push(bonus);
        WalkResult { accepted: self.proposals.len(), new_tokens }
    }
}

/// Runs a whole stochastic walk from decisions that are already known.
pub fn stochastic_walk(
    proposals: &[i32],
    verdicts: &[DraftVerdict],
    bonus: i32,
    eos_tokens: &[i32],
    max_new_tokens: usize,
) -> (walk: WalkResult)
    requires
        verdicts@.len() == proposals@.len(),
    ensures
        (walk.accepted as nat, walk.new_tokens@) == stochastic_outcome(
            proposals@,
            verdicts@,
            bonus,
            eos_tokens@,
            max_new_tokens as nat,
            0,
        ),
{
    let mut state = StochasticWalk::new(
        crate::tokens::copy_tokens(proposals),
        Vec::new(),
        crate::tokens::copy_tokens(eos_tokens),
        max_new_tokens,
    );
    let mut position: usize = 0;
    while position < proposals.len()
        invariant
            position <= proposals@.len(),
            verdicts@.len() == proposals@.len(),
            state.wf(),
            state.position() == position,
            state.proposals() == proposals@,
            state.eos_tokens() == eos_tokens@,
            state.budget() == max_new_tokens,
            stochastic_outcome(
                proposals@,
                verdicts@,
                bonus,
                eos_tokens@,
                max_new_tokens as nat,
                position as nat,
            ) == stochastic_outcome(
                proposals@,
                verdicts@,
                bonus,
                eos_tokens@,
                max_new_tokens as nat,
                0,
            ),
        decreases proposals@.len() - position,
    {
        if let Some(walk) = state.verdict(verdicts[position]) {
            return walk;
        }
        position = position + 1;
    }
    match state.next() {
        StochasticStep::Finished(walk) => walk,
        _ => state.bonus(bonus),
    }
}

/// What any stochastic walk returns: accepted proposals come first and unchanged, at most one
/// token follows them, at least one token is returned when the budget allows one, and the budget
/// is never exceeded.
pub proof fn stochastic_walk_keeps_accepted_prefix(
    proposals: Seq<i32>,
    verdicts: Seq<DraftVerdict>,
    bonus: i32,
    eos: Seq<i32>,
    max_new_tokens: nat,
    position: nat,
)
    requires
        position <= proposals.len(),
        position < max_new_tokens,
    ensures
        ({
            let (accepted, new_tokens) = stochastic_outcome(
                proposals,
                verdicts,
                bonus,
                eos,
                max_new_tokens,
                position,
            );
            &&& position <= accepted <= proposals.len()
            &&& accepted <= new_tokens.len() <= accepted + 1
            &&& 1 <= new_tokens.len() <= max_new_tokens
            &&& new_tokens.take(accepted as int) == proposals.take(accepted as int)
        }),
    decreases proposals.len() - position,
{
    if position < proposals.len() {
        if verdicts[position as int] is Accept && !eos.contains(proposals[position as int])
            && position + 1 != max_new_tokens {
            stochastic_walk_keeps_accepted_prefix(
                proposals,
                verdicts,
                bonus,
                eos,
                max_new_tokens,
                position + 1,
            );
        } else {
            let (accepted, new_tokens) = stochastic_outcome(
                proposals,
                verdicts,
                bonus,
                eos,
                max_new_tokens,
                position,
            );
            assert(new_tokens.take(accepted as int) == proposals.take(accepted as int));
        }
    } else {
        let (accepted, new_tokens) = stochastic_outcome(
            proposals,
            verdicts,
            bonus,
            eos,
            max_new_tokens,
            position,
        );
        assert(new_tokens.take(accepted as int) == proposals.take(accepted as int));
    }
}

} // verus!
