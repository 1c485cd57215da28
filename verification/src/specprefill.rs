//! Choosing which prompt tokens a sparse prefill keeps.

use vstd::prelude::*;
use crate::binary32::{nearest_single, single};
use crate::binary64::{powers_grow, two_to};

verus! {

/// The drafter that scores prompts.
pub const SPECPREFILL_DRAFT_MODEL_IDENTIFIER: &'static str = "mlx-community/Qwen3.5-0.8B-MLX-8bit";

/// Tokens that are drafted to score a prompt.
pub const LOOKAHEAD_TOKENS: usize = 8;

/// Neighbouring scores that are averaged.
pub const POOL_WIDTH: i32 = 13;

/// Tokens that are kept or dropped together.
pub const CHUNK_TOKENS: usize = 32;

/// Tokens at the end of the prompt that are always kept.
pub const MANDATORY_TAIL_TOKENS: usize = 512;

/// The number one in single precision.
pub const ONE_BITS: u32 = 0x3f80_0000;

/// Infinity in single precision. Bits beyond it are no number or a negative one.
pub const INFINITY_BITS: u32 = 0x7f80_0000;

/// When and how much a prompt is thinned out.
#[derive(Debug, Clone, Copy, PartialEq, Eq, Structural)]
pub struct SpecPrefillConfig {
    pub min_tokens: usize,
    /// The share of chunks to keep: the bits of a number in single precision.
    pub keep_rate_bits: u32,
    pub protected_prefix_tokens: usize,
}

impl Default for SpecPrefillConfig {
    /// Prompts of more than 8192 tokens, a fifth of which is kept.
    fn default() -> (config: Self)
        ensures
            config.min_tokens == 8192,
            config.keep_rate_bits == 0x3e4c_cccd,
            config.protected_prefix_tokens == 0,
    {
        SpecPrefillConfig {
            min_tokens: 8192,
            keep_rate_bits: 0x3e4c_cccd,
            protected_prefix_tokens: 0,
        }
    }
}

/// Why a configuration is refused.
#[derive(Debug, Clone, Copy, PartialEq, Eq, Structural)]
pub enum SpecPrefillError {
    MinTokensZero,
    /// The share is not above zero and at most one.
    KeepRate,
    ProtectedPrefix,
}

impl SpecPrefillConfig {
    /// Whether the share is above zero and at most one. Bits of positive numbers are ordered like
    /// the numbers; those of negative ones, of infinity and of what is no number are larger.
    pub open spec fn keep_rate_valid(&self) -> bool {
        0 < self.keep_rate_bits <= ONE_BITS
    }

    /// The first problem of a configuration for a prompt of this length.
    pub open spec fn problem(&self, prompt_len: int) -> Option<SpecPrefillError> {
        if self.min_tokens == 0 {
            Some(SpecPrefillError::MinTokensZero)
        } else if !self.keep_rate_valid() {
            Some(SpecPrefillError::KeepRate)
        } else if self.protected_prefix_tokens > prompt_len {
            Some(SpecPrefillError::ProtectedPrefix)
        } else {
            None
        }
    }

    /// Checks a configuration for a prompt of this length.
    pub fn validate(self, prompt_len: usize) -> (result: Result<(), SpecPrefillError>)
        ensures
            match result {
                Ok(_) => self.problem(prompt_len as int) is None,
                Err(problem) => self.problem(prompt_len as int) == Some(problem),
            },
    {
        if self.min_tokens == 0 {
            return Err(SpecPrefillError::MinTokensZero);
        }
        if !(0 < self.keep_rate_bits && self.keep_rate_bits <= ONE_BITS) {
            return Err(SpecPrefillError::KeepRate);
        }
        if self.protected_prefix_tokens > prompt_len {
            return Err(SpecPrefillError::ProtectedPrefix);
        }
        Ok(())
    }
}

/// How a prompt is fed.
#[derive(Debug, Clone, Copy, PartialEq, Eq, Structural)]
pub enum PrefillMode {
    Dense,
    SpecPrefill(SpecPrefillConfig),
}

/// What a sparse prefill did. Times are in nanoseconds.
#[derive(Debug, Clone, Copy, PartialEq, Eq, Structural)]
pub struct SpecPrefillStats {
    pub draft_tokens: usize,
    pub eligible_target_tokens: usize,
    pub selected_target_tokens: usize,
    pub protected_target_tokens: usize,
    pub cached_target_tokens: usize,
    pub draft_scoring_time: u128,
    pub target_prefill_time: u128,
}

/// Tokens at the start of the prompt that are all fed: those that are cached or protected.
pub fn dense_prefix_end(cached_tokens: usize, config: SpecPrefillConfig) -> (end: usize)
    ensures
        end == if cached_tokens >= config.protected_prefix_tokens {
            cached_tokens
        } else {
            config.protected_prefix_tokens
        },
{
    if cached_tokens >= config.protected_prefix_tokens {
        cached_tokens
    } else {
        config.protected_prefix_tokens
    }
}

/// Whether so many tokens are worth thinning out.
pub fn should_activate(eligible_tokens: usize, config: SpecPrefillConfig) -> (active: bool)
    ensures
        active == (eligible_tokens > config.min_tokens),
{
    eligible_tokens > config.min_tokens
}

/// Why captured attention cannot be scored.
#[derive(Debug, Clone, Copy, PartialEq, Eq, Structural)]
pub enum ScoreError {
    /// The drafter captured another number of layers than before.
    Topology,
    NoQueries,
    /// The drafter's cache does not span the prompt.
    CacheTooShort,
    /// Query heads are no multiple of key heads.
    HeadRatio,
}

/// How often the keys of a layer are repeated to meet its queries.
pub fn key_repeats(
    captured_queries: usize,
    query_heads: i32,
    key_heads: i32,
    key_len: i32,
    prompt_len: usize,
) -> (result: Result<i32, ScoreError>)
    requires
        prompt_len <= i32::MAX,
        query_heads >= 0,
        key_heads > 0,
    ensures
        match result {
            Ok(repeats) => {
                &&& captured_queries > 0
                &&& key_len >= prompt_len
                &&& query_heads == repeats * key_heads
            },
            Err(ScoreError::NoQueries) => captured_queries == 0,
            Err(ScoreError::CacheTooShort) => captured_queries > 0 && key_len < prompt_len,
            Err(ScoreError::HeadRatio) => captured_queries > 0 && key_len >= prompt_len
                && query_heads as int % key_heads as int != 0,
            Err(ScoreError::Topology) => false,
        },
{
    if captured_queries == 0 {
        return Err(ScoreError::NoQueries);
    }
    if key_len < prompt_len as i32 {
        return Err(ScoreError::CacheTooShort);
    }
    if query_heads % key_heads != 0 {
        return Err(ScoreError::HeadRatio);
    }
    let repeats: i32 = query_heads / key_heads;
    assert(query_heads == repeats * key_heads) by (nonlinear_arith)
        requires
            query_heads as int % key_heads as int == 0,
            repeats == query_heads as int / key_heads as int,
            key_heads > 0,
    ;
    Ok(repeats)
}

/// Checks that a lookahead step captured every layer once.
pub fn check_topology(queries: usize, layers: usize) -> (result: Result<(), ScoreError>)
    ensures
        result == if queries == layers {
            Ok::<(), ScoreError>(())
        } else {
            Err(ScoreError::Topology)
        },
{
    if queries == layers {
        Ok(())
    } else {
        Err(ScoreError::Topology)
    }
}

/// Whether chunk `other` comes before chunk `chunk`: it scores higher, or the same and stands
/// earlier.
pub open spec fn outranks(scores: Seq<i32>, other: int, chunk: int) -> bool {
    scores[other] > scores[chunk] || (scores[other] == scores[chunk] && other < chunk)
}

/// How many of the first `count` chunks come before `chunk`.
pub open spec fn rank_among(scores: Seq<i32>, chunk: int, count: nat) -> nat
    decreases count,
{
    if count == 0 {
        0
    } else {
        rank_among(scores, chunk, (count - 1) as nat) + if outranks(scores, count - 1, chunk) {
            1nat
        } else {
            0nat
        }
    }
}

/// How many chunks come before `chunk`.
pub open spec fn rank(scores: Seq<i32>, chunk: int) -> nat {
    rank_among(scores, chunk, scores.len())
}

/// Whether token `index` of `length` eligible ones is kept: its chunk is among the best `keep`, or
/// it stands in the tail.
pub open spec fn keeps_token(scores: Seq<i32>, length: int, keep: int, index: int) -> bool {
    rank(scores, index / CHUNK_TOKENS as int) < keep || index + MANDATORY_TAIL_TOKENS >= length
}

/// Positions of the kept ones among the first `count` eligible tokens.
pub open spec fn kept_positions(
    scores: Seq<i32>,
    length: int,
    keep: int,
    start: int,
    count: nat,
) -> Seq<int>
    decreases count,
{
    if count == 0 {
        Seq::empty()
    } else {
        let front = kept_positions(scores, length, keep, start, (count - 1) as nat);
        if keeps_token(scores, length, keep, count - 1) {
            front.push(start + count - 1)
        } else {
            front
        }
    }
}

/// Counts the chunks that come before `chunk`.
fn count_rank(scores: &[i32], chunk: usize) -> (result: usize)
    requires
        chunk < scores@.len(),
    ensures
        result == rank(scores@, chunk as int),
        result <= scores@.len(),
{
    let mut result: usize = 0;
    let mut other: usize = 0;
    while other < scores.len()
        invariant
            chunk < scores@.len(),
            other <= scores@.len(),
            result == rank_among(scores@, chunk as int, other as nat),
            result <= other,
        decreases scores@.len() - other,
    {
        if scores[other] > scores[chunk] || (scores[other] == scores[chunk] && other < chunk) {
            result = result + 1;
        }
        other = other + 1;
    }
    result
}

/// Significand of a positive number in single precision, given by its bits.
pub open spec fn significand_of(bits: u32) -> nat {
    if bits < 0x80_0000 {
        bits as nat
    } else {
        0x80_0000 + bits as nat % 0x80_0000
    }
}

/// What the significand of a number below one is shifted down by.
pub open spec fn shift_of(bits: u32) -> nat {
    if bits < 0x80_0000 {
        149
    } else {
        (150 - bits as int / 0x80_0000) as nat
    }
}

/// A quotient, rounded up.
pub open spec fn ceiling(n: nat, unit: nat) -> nat {
    ((n + unit - 1) / unit as int) as nat
}

/// Chunks to keep of `count`: the share of them, computed in single precision and rounded up.
pub open spec fn chunks_to_keep(count: nat, keep_rate_bits: u32) -> nat {
    ceiling(
        single(single(count) * significand_of(keep_rate_bits)),
        two_to(shift_of(keep_rate_bits)),
    )
}

/// Rounding up is the least multiple that is not smaller.
pub(crate) proof fn ceiling_is_least(n: nat, unit: nat)
    requires
        unit > 0,
    ensures
        n <= ceiling(n, unit) * unit,
        ceiling(n, unit) > 0 ==> n > (ceiling(n, unit) - 1) * unit,
        ceiling(n, unit) <= n,
{
    let c = (n + unit - 1) / unit as int;
    vstd::arithmetic::div_mod::lemma_fundamental_div_mod(n + unit - 1, unit as int);
    vstd::arithmetic::div_mod::lemma_mod_bound(n + unit - 1, unit as int);
    vstd::arithmetic::div_mod::lemma_div_pos_is_pos(n + unit - 1, unit as int);
    assert(unit * c == c * unit) by (nonlinear_arith);
    assert((c - 1) * unit == c * unit - unit) by (nonlinear_arith);
    assert(c > n ==> c * unit >= (n + 1) * unit) by (nonlinear_arith)
        requires
            unit > 0,
    ;
    assert((n + 1) * unit >= n + unit) by (nonlinear_arith)
        requires
            unit > 0,
            n >= 0,
    ;
}

/// The least multiple that is not smaller is unique.
pub(crate) proof fn ceiling_is_unique(n: nat, unit: nat, c: nat)
    requires
        unit > 0,
        n <= c * unit,
        c > 0 ==> n > (c - 1) * unit,
    ensures
        c == ceiling(n, unit),
{
    ceiling_is_least(n, unit);
    let d = ceiling(n, unit);
    if c < d {
        assert(c * unit <= (d - 1) * unit) by (nonlinear_arith)
            requires
                c <= d - 1,
                unit > 0,
        ;
    }
    if d < c {
        assert(d * unit <= (c - 1) * unit) by (nonlinear_arith)
            requires
                d <= c - 1,
                unit > 0,
        ;
    }
}

/// Rounding up can be done one halving at a time.
proof fn halving_rounds_up(n: nat, unit: nat)
    requires
        unit > 0,
    ensures
        ceiling(n, 2 * unit) == ceiling(ceiling(n, unit), 2),
{
    ceiling_is_least(n, unit);
    let c = ceiling(n, unit);
    ceiling_is_least(c, 2);
    let d = ceiling(c, 2);
    assert(n <= d * (2 * unit)) by (nonlinear_arith)
        requires
            n <= c * unit,
            c <= d * 2,
            unit > 0,
    ;
    if d > 0 {
        assert(n > (d - 1) * (2 * unit)) by (nonlinear_arith)
            requires
                n > (c - 1) * unit,
                c > (d - 1) * 2,
                unit > 0,
        ;
    }
    ceiling_is_unique(n, 2 * unit, d);
}

/// Chunks to keep of `count`.
fn count_chunks_to_keep(count: usize, keep_rate_bits: u32) -> (keep: usize)
    requires
        0 < keep_rate_bits < ONE_BITS,
        count <= 0x800_0000_0000_0000,
    ensures
        keep == saturated(chunks_to_keep(count as nat, keep_rate_bits)),
{
    let (significand, shift): (u32, u32) = if keep_rate_bits < 0x80_0000 {
        (keep_rate_bits, 149)
    } else {
        (0x80_0000 + keep_rate_bits % 0x80_0000, 150 - keep_rate_bits / 0x80_0000)
    };
    let rounded: u128 = nearest_single(count as u128);
    assert(0 <= rounded * significand <= 0x1000_0000_0000_0000 * 0x100_0000) by (nonlinear_arith)
        requires
            0 <= rounded <= 0x1000_0000_0000_0000,
            0 <= significand <= 0x100_0000,
    ;
    let product: u128 = nearest_single(rounded * significand as u128);
    let mut value: u128 = product;
    let mut done: u32 = 0;
    proof {
        assert(two_to(0) == 1);
        ceiling_is_unique(product as nat, 1, product as nat);
    }
    while done < shift
        invariant
            done <= shift,
            value <= product,
            product <= 0x2_0000_0000_0000_0000_0000_0000,
            value == ceiling(product as nat, two_to(done as nat)),
        decreases shift - done,
    {
        proof {
            powers_grow(0, done as nat);
            halving_rounds_up(product as nat, two_to(done as nat));
            assert(two_to((done + 1) as nat) == 2 * two_to(done as nat));
            ceiling_is_unique(value as nat, 2, (value / 2 + value % 2) as nat);
        }
        value = value / 2 + value % 2;
        done = done + 1;
    }
    if value <= usize::MAX as u128 {
        value as usize
    } else {
        usize::MAX
    }
}

/// A count, or the largest of the machine.
pub open spec fn saturated(n: nat) -> nat {
    if n <= usize::MAX {
        n
    } else {
        usize::MAX as nat
    }
}

/// Chunks of so many tokens.
pub open spec fn chunk_count(tokens: nat) -> nat {
    ceiling(tokens, CHUNK_TOKENS as nat)
}

/// Positions of all eligible tokens.
pub open spec fn all_positions(start: int, end: int) -> Seq<int> {
    Seq::new((end - start) as nat, |i: int| start + i)
}

/// How many chunks a share below one keeps. What is no share above zero keeps none.
pub open spec fn share_of_chunks(count: nat, keep_rate_bits: u32) -> nat {
    if 0 < keep_rate_bits < ONE_BITS {
        saturated(chunks_to_keep(count, keep_rate_bits))
    } else {
        0
    }
}

/// Positions of the tokens that are kept: all of them for a share of one or more, else those of
/// the best chunks and of the tail.
pub open spec fn selected(
    scores: Seq<i32>,
    eligible_start: int,
    prompt_len: int,
    keep_rate_bits: u32,
) -> Seq<int> {
    let length = prompt_len - eligible_start;
    if ONE_BITS <= keep_rate_bits <= INFINITY_BITS {
        all_positions(eligible_start, prompt_len)
    } else {
        kept_positions(
            scores,
            length,
            share_of_chunks(scores.len(), keep_rate_bits) as int,
            eligible_start,
            length as nat,
        )
    }
}

/// Selects the prompt tokens that are fed, by the scores of their chunks. Scores are ordered like
/// the mean importance of the chunks.
pub fn select_target_indices(
    scores: &[i32],
    eligible_start: usize,
    prompt_len: usize,
    keep_rate_bits: u32,
) -> (indices: Vec<usize>)
    requires
        eligible_start <= prompt_len,
        scores@.len() == chunk_count((prompt_len - eligible_start) as nat),
    ensures
        indices@.len() == selected(
            scores@,
            eligible_start as int,
            prompt_len as int,
            keep_rate_bits,
        ).len(),
        forall|i: int|
            0 <= i < indices@.len() ==> #[trigger] indices@[i] == selected(
                scores@,
                eligible_start as int,
                prompt_len as int,
                keep_rate_bits,
            )[i],
{
    let length: usize = prompt_len - eligible_start;
    let mut indices: Vec<usize> = Vec::new();
    if keep_rate_bits >= ONE_BITS && keep_rate_bits <= INFINITY_BITS {
        let mut position: usize = eligible_start;
        while position < prompt_len
            invariant
                eligible_start <= position <= prompt_len,
                indices@.len() == position - eligible_start,
                forall|i: int|
                    0 <= i < indices@.len() ==> #[trigger] indices@[i] == eligible_start + i,
            decreases prompt_len - position,
        {
            indices.push(position);
            position = position + 1;
        }
        return indices;
    }
    proof {
        ceiling_is_least(length as nat, 32);
        assert(scores@.len() <= 0x800_0000_0000_0000);
    }
    let keep: usize = if 0 < keep_rate_bits && keep_rate_bits < ONE_BITS {
        count_chunks_to_keep(scores.len(), keep_rate_bits)
    } else {
        0
    };
    let chosen: Vec<bool> = chosen_chunks(scores, keep);
    let mut index: usize = 0;
    while index < length
        invariant
            length == prompt_len - eligible_start,
            scores@.len() == ceiling(length as nat, 32),
            chosen@.len() == scores@.len(),
            forall|c: int|
                0 <= c < chosen@.len() ==> #[trigger] chosen@[c] == (rank(scores@, c) < keep),
            index <= length,
            indices@.len() == kept_positions(
                scores@,
                length as int,
                keep as int,
                eligible_start as int,
                index as nat,
            ).len(),
            forall|i: int|
                0 <= i < indices@.len() ==> #[trigger] indices@[i] == kept_positions(
                    scores@,
                    length as int,
                    keep as int,
                    eligible_start as int,
                    index as nat,
                )[i],
        decreases length - index,
    {
        proof {
            ceiling_is_least(length as nat, 32);
        }
        let chunk: usize = index / CHUNK_TOKENS;
        if chosen[chunk] || length - index <= MANDATORY_TAIL_TOKENS {
            indices.push(eligible_start + index);
        }
        index = index + 1;
    }
    indices
}

/// Which chunks are among the best `keep`.
fn chosen_chunks(scores: &[i32], keep: usize) -> (chosen: Vec<bool>)
    ensures
        chosen@.len() == scores@.len(),
        forall|c: int| 0 <= c < chosen@.len() ==> #[trigger] chosen@[c] == (rank(scores@, c) < keep),
{
    let mut chosen: Vec<bool> = Vec::new();
    let mut chunk: usize = 0;
    while chunk < scores.len()
        invariant
            chunk <= scores@.len(),
            chosen@.len() == chunk,
            forall|c: int|
                0 <= c < chosen@.len() ==> #[trigger] chosen@[c] == (rank(scores@, c) < keep),
        decreases scores@.len() - chunk,
    {
        chosen.push(count_rank(scores, chunk) < keep);
        chunk = chunk + 1;
    }
    chosen
}

/// Kept positions ascend and lie among the eligible ones, and one that is to be kept is there.
pub(crate) proof fn kept_positions_ascend(scores: Seq<i32>, length: int, keep: int, start: int, count: nat)
    ensures
        forall|i: int|
            0 <= i < kept_positions(scores, length, keep, start, count).len() ==> start
                <= #[trigger] kept_positions(scores, length, keep, start, count)[i] < start + count,
        forall|i: int, j: int|
            0 <= i < j < kept_positions(scores, length, keep, start, count).len()
                ==> #[trigger] kept_positions(scores, length, keep, start, count)[i]
                < #[trigger] kept_positions(scores, length, keep, start, count)[j],
        forall|index: int|
            0 <= index < count && #[trigger] keeps_token(scores, length, keep, index)
                ==> kept_positions(scores, length, keep, start, count).contains(start + index),
    decreases count,
{
    if count > 0 {
        let front = kept_positions(scores, length, keep, start, (count - 1) as nat);
        let all = kept_positions(scores, length, keep, start, count);
        kept_positions_ascend(scores, length, keep, start, (count - 1) as nat);
        assert forall|index: int|
            0 <= index < count && #[trigger] keeps_token(
                scores,
                length,
                keep,
                index,
            ) implies all.contains(start + index) by {
            if index < count - 1 {
                let i = choose|i: int| 0 <= i < front.len() && front[i] == start + index;
                assert(all[i] == start + index);
            } else {
                assert(all[all.len() - 1] == start + index);
            }
        }
    }
}

/// Selected positions ascend, lie among the eligible ones, and hold the whole tail.
pub proof fn selection_is_sorted_and_holds_tail(
    scores: Seq<i32>,
    eligible_start: int,
    prompt_len: int,
    keep_rate_bits: u32,
)
    requires
        0 <= eligible_start <= prompt_len,
    ensures
        ({
            let positions = selected(scores, eligible_start, prompt_len, keep_rate_bits);
            &&& forall|i: int|
                0 <= i < positions.len() ==> eligible_start <= #[trigger] positions[i] < prompt_len
            &&& forall|i: int, j: int|
                0 <= i < j < positions.len() ==> #[trigger] positions[i] < #[trigger] positions[j]
            &&& forall|position: int|
                eligible_start <= position < prompt_len && prompt_len - MANDATORY_TAIL_TOKENS
                    <= position ==> #[trigger] positions.contains(position)
        }),
{
    let length = prompt_len - eligible_start;
    let keep = share_of_chunks(scores.len(), keep_rate_bits) as int;
    let positions = selected(scores, eligible_start, prompt_len, keep_rate_bits);
    kept_positions_ascend(scores, length, keep, eligible_start, length as nat);
    assert forall|position: int|
        eligible_start <= position < prompt_len && prompt_len - MANDATORY_TAIL_TOKENS
            <= position implies #[trigger] positions.contains(position) by {
        if ONE_BITS <= keep_rate_bits <= INFINITY_BITS {
            assert(positions[position - eligible_start] == position);
        } else {
            assert(keeps_token(scores, length, keep, position - eligible_start));
        }
    }
}

/// A chunk that outranks another one has the smaller rank, so that no chunk is kept while a better
/// one is dropped.
pub proof fn better_chunks_are_kept_first(scores: Seq<i32>, better: int, worse: int)
    requires
        0 <= better < scores.len(),
        0 <= worse < scores.len(),
        outranks(scores, better, worse),
    ensures
        rank(scores, better) < rank(scores, worse),
{
    prefix_ranks(scores, better, worse, scores.len());
}

proof fn prefix_ranks(scores: Seq<i32>, better: int, worse: int, count: nat)
    requires
        0 <= better < scores.len(),
        0 <= worse < scores.len(),
        outranks(scores, better, worse),
    ensures
        rank_among(scores, better, count) <= rank_among(scores, worse, count),
        better < count ==> rank_among(scores, better, count) < rank_among(scores, worse, count),
    decreases count,
{
    if count > 0 {
        prefix_ranks(scores, better, worse, (count - 1) as nat);
    }
}

} // verus!
