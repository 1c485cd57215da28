//! Sparse attention over blocks of keys.
//!
//! Keys are summarised in blocks of a fixed number of tokens. A query row scores every block that
//! is complete for it, keeps the best few and attends to their tokens and to the tokens after its
//! last complete block. Scores are quantised to integers; ties go to the later block.

use vstd::prelude::*;
use vstd::slice::slice_subrange;
use crate::qwen3_next::KVCacheMode;
use crate::qwen4_attention::topk::{
    first,
    largest,
    largest_ignores_small_tail,
    largest_of_tiles,
    others_are_not_larger,
    sorted_descending,
    sorted_values_come_from,
    sorting_rearranges,
    top_k,
};

verus! {

/// Query rows that are ranked together when ranking in tiles.
pub const QSA_PREFILL_QUERY_TILE: usize = 128;

/// Blocks that are ranked together when ranking in tiles.
pub const QSA_PREFILL_BLOCK_TILE: usize = 2048;

/// Whether sparse prefills may be approximate, and whether one was.
#[derive(Debug, Clone, Copy, PartialEq, Eq, Structural)]
pub struct Qwen4PrefillPolicy {
    pub force_reference: bool,
    pub used_approximate: bool,
}

impl Default for Qwen4PrefillPolicy {
    fn default() -> (policy: Self)
        ensures
            !policy.force_reference,
            !policy.used_approximate,
    {
        Qwen4PrefillPolicy { force_reference: false, used_approximate: false }
    }
}

impl Qwen4PrefillPolicy {
    /// Forces exact prefills or stops doing so; forcing forgets earlier approximate ones.
    pub fn set_force_reference(&mut self, enabled: bool)
        ensures
            final(self).force_reference == enabled,
            final(self).used_approximate == (old(self).used_approximate && !enabled),
    {
        self.force_reference = enabled;
        if enabled {
            self.used_approximate = false;
        }
    }

    /// Whether an approximate prefill ran.
    pub fn approximate_used(&self) -> (used: bool)
        ensures
            used == self.used_approximate,
    {
        self.used_approximate
    }

    /// Back to the start.
    pub fn reset(&mut self)
        ensures
            !final(self).force_reference,
            !final(self).used_approximate,
    {
        self.force_reference = false;
        self.used_approximate = false;
    }
}

/// The rank of a block: the score decides, the block's own number breaks ties in favour of later
/// blocks and makes every rank unique.
pub open spec fn block_rank(score: int, block: int, blocks: int) -> int {
    score * (blocks + 1) + block
}

/// Scores whose ranks can be told apart within the machine's integers.
pub open spec fn rankable(scores: Seq<i32>, blocks: int) -> bool {
    forall|i: int|
        0 <= i < scores.len() ==> 0 <= #[trigger] scores[i] && scores[i] * (blocks + 1) + blocks
            <= i32::MAX
}

/// The ranks of the blocks from `start` on, for a row that sees the first `count` blocks. Blocks
/// that the row does not see come after everything else.
pub open spec fn ranks(scores: Seq<i32>, start: int, blocks: int, count: int) -> Seq<i32> {
    Seq::new(
        scores.len(),
        |i: int|
            if start + i < count {
                block_rank(scores[i] as int, start + i, blocks) as i32
            } else {
                i32::MIN
            },
    )
}

/// Ranks a tile of blocks for one row.
pub fn qsa_ranked_tile(scores: &[i32], block_start: i32, complete_blocks: i32, complete_count: i32) -> (ranked:
    Vec<i32>)
    requires
        0 <= block_start,
        block_start + scores@.len() <= complete_blocks < i32::MAX,
        rankable(scores@, complete_blocks as int),
    ensures
        ranked@ == ranks(
            scores@,
            block_start as int,
            complete_blocks as int,
            complete_count as int,
        ),
{
    let stride: i32 = complete_blocks + 1;
    let mut ranked: Vec<i32> = Vec::new();
    let mut index: usize = 0;
    while index < scores.len()
        invariant
            index <= scores@.len(),
            stride == complete_blocks + 1,
            0 <= block_start,
            block_start + scores@.len() <= complete_blocks < i32::MAX,
            rankable(scores@, complete_blocks as int),
            ranked@.len() == index,
            forall|i: int|
                0 <= i < index ==> ranked@[i] == ranks(
                    scores@,
                    block_start as int,
                    complete_blocks as int,
                    complete_count as int,
                )[i],
        decreases scores@.len() - index,
    {
        let block: i32 = block_start + index as i32;
        let score: i32 = scores[index];
        if block < complete_count {
            assert(0 <= score * stride) by (nonlinear_arith)
                requires
                    score >= 0,
                    stride > 0,
            ;
            assert(scores@[index as int] == score);
            ranked.push(score * stride + block);
        } else {
            ranked.push(i32::MIN);
        }
        index = index + 1;
    }
    assert(ranked@ =~= ranks(
        scores@,
        block_start as int,
        complete_blocks as int,
        complete_count as int,
    ));
    ranked
}

/// The blocks of the `k` best ranks, the best first.
pub open spec fn best_blocks(ranked: Seq<i32>, k: nat, blocks: int) -> Seq<i32> {
    largest(ranked, k).map_values(|rank: i32| (rank as int % (blocks + 1)) as i32)
}

/// The blocks of the best ranks, the best first.
pub fn qsa_topk_block_ids(ranked: &[i32], block_topk: usize, complete_blocks: i32) -> (selected: Vec<
    i32,
>)
    requires
        0 <= complete_blocks < i32::MAX,
        block_topk < usize::MAX,
    ensures
        selected@ == best_blocks(ranked@, block_topk as nat, complete_blocks as int),
{
    let top = top_k(ranked, block_topk);
    let stride: i32 = complete_blocks + 1;
    let mut selected: Vec<i32> = Vec::new();
    let mut index: usize = 0;
    while index < top.len()
        invariant
            index <= top@.len(),
            stride == complete_blocks + 1,
            stride > 0,
            selected@.len() == index,
            forall|i: int|
                0 <= i < index ==> selected@[i] == (top@[i] as int % stride as int) as i32,
        decreases top@.len() - index,
    {
        let block: i32 = match top[index].checked_rem_euclid(stride) {
            Some(block) => block,
            None => {
                assert(false);
                0
            },
        };
        selected.push(block);
        index = index + 1;
    }
    assert(selected@ =~= best_blocks(ranked@, block_topk as nat, complete_blocks as int));
    selected
}

/// The blocks that a row keeps, the best first.
pub open spec fn row_blocks(scores: Seq<i32>, count: int, k: nat, blocks: int) -> Seq<i32> {
    best_blocks(ranks(scores, 0, blocks, count), k, blocks)
}

proof fn tile_of_ranks(scores: Seq<i32>, start: int, end: int, blocks: int, count: int)
    requires
        0 <= start <= end <= scores.len(),
    ensures
        ranks(scores.subrange(start, end), start, blocks, count) == ranks(
            scores,
            0,
            blocks,
            count,
        ).subrange(start, end),
{
    assert(ranks(scores.subrange(start, end), start, blocks, count) =~= ranks(
        scores,
        0,
        blocks,
        count,
    ).subrange(start, end));
}

fn tiled_row(
    scores: &Vec<i32>,
    count: i32,
    block_topk: usize,
    block_tile_size: usize,
    complete_blocks: i32,
) -> (selected: Vec<i32>)
    requires
        scores@.len() == complete_blocks < i32::MAX,
        rankable(scores@, complete_blocks as int),
        block_topk < usize::MAX,
        block_tile_size > 0,
    ensures
        selected@ == row_blocks(
            scores@,
            count as int,
            block_topk as nat,
            complete_blocks as int,
        ),
{
    let ghost whole = ranks(scores@, 0, complete_blocks as int, count as int);
    let ghost k = block_topk as nat;
    let total: usize = scores.len();
    let mut running: Vec<i32> = Vec::new();
    let mut start: usize = 0;
    proof {
        assert(whole.take(0) == Seq::<i32>::empty());
        assert(sorted_descending(whole.take(0)) == Seq::<i32>::empty());
    }
    while start < total
        invariant
            start <= total == scores@.len() == complete_blocks < i32::MAX,
            rankable(scores@, complete_blocks as int),
            block_topk < usize::MAX,
            block_tile_size > 0,
            k == block_topk,
            whole == ranks(scores@, 0, complete_blocks as int, count as int),
            running@ == largest(whole.take(start as int), k),
        decreases total - start,
    {
        let end: usize = if total - start > block_tile_size {
            start + block_tile_size
        } else {
            total
        };
        let tile = slice_subrange(scores.as_slice(), start, end);
        assert(rankable(tile@, complete_blocks as int)) by {
            assert forall|i: int| 0 <= i < tile@.len() implies 0 <= #[trigger] tile@[i] && tile@[i]
                * (complete_blocks + 1) + complete_blocks <= i32::MAX by {
                assert(tile@[i] == scores@[start + i]);
            }
        }
        let ranked = qsa_ranked_tile(tile, start as i32, complete_blocks, count);
        let candidates = top_k(ranked.as_slice(), block_topk);
        proof {
            tile_of_ranks(
                scores@,
                start as int,
                end as int,
                complete_blocks as int,
                count as int,
            );
            largest_of_tiles(
                whole.take(start as int),
                whole.subrange(start as int, end as int),
                k,
            );
            assert(whole.take(start as int) + whole.subrange(start as int, end as int)
                == whole.take(end as int));
        }
        let mut merged: Vec<i32> = Vec::new();
        crate::tokens::append_tokens(&mut merged, running.as_slice());
        crate::tokens::append_tokens(&mut merged, candidates.as_slice());
        assert(merged@ == running@ + candidates@);
        running = top_k(merged.as_slice(), block_topk);
        start = end;
    }
    assert(whole.take(whole.len() as int) == whole);
    proof {
        sorting_rearranges(whole);
        let kept = largest(whole, k);
        largest_of_tiles(whole, Seq::<i32>::empty(), k);
        assert(sorted_descending(Seq::<i32>::empty()) == Seq::<i32>::empty());
        assert(kept + largest(Seq::<i32>::empty(), k) == kept);
        assert(whole + Seq::<i32>::empty() == whole);
        assert(largest(kept, k) == kept);
    }
    qsa_topk_block_ids(running.as_slice(), block_topk, complete_blocks)
}

/// The blocks that every row keeps, ranked tile by tile. Every tile uses the same unique ranks, so
/// that keeping the best of each tile and then the best of their union is the same as ranking a
/// row at once; tiles of rows only separate independent rows.
pub fn qsa_tiled_topk_block_ids(
    scores: &Vec<Vec<i32>>,
    complete_counts: &[i32],
    block_topk: usize,
    query_tile_size: usize,
    block_tile_size: usize,
    complete_blocks: i32,
) -> (selected: Vec<Vec<i32>>)
    requires
        scores@.len() == complete_counts@.len(),
        0 <= complete_blocks < i32::MAX,
        forall|row: int|
            0 <= row < scores@.len() ==> (#[trigger] scores@[row])@.len() == complete_blocks
                && rankable(scores@[row]@, complete_blocks as int),
        block_topk < usize::MAX,
        query_tile_size > 0,
        block_tile_size > 0,
    ensures
        selected@.len() == scores@.len(),
        forall|row: int|
            0 <= row < scores@.len() ==> (#[trigger] selected@[row])@ == row_blocks(
                scores@[row]@,
                complete_counts@[row] as int,
                block_topk as nat,
                complete_blocks as int,
            ),
{
    let total: usize = scores.len();
    let mut selected: Vec<Vec<i32>> = Vec::new();
    let mut tile_start: usize = 0;
    while tile_start < total
        invariant
            tile_start <= total == scores@.len() == complete_counts@.len(),
            0 <= complete_blocks < i32::MAX,
            forall|row: int|
                0 <= row < scores@.len() ==> (#[trigger] scores@[row])@.len() == complete_blocks
                    && rankable(scores@[row]@, complete_blocks as int),
            block_topk < usize::MAX,
            query_tile_size > 0,
            block_tile_size > 0,
            selected@.len() == tile_start,
            forall|row: int|
                0 <= row < tile_start ==> (#[trigger] selected@[row])@ == row_blocks(
                    scores@[row]@,
                    complete_counts@[row] as int,
                    block_topk as nat,
                    complete_blocks as int,
                ),
        decreases total - tile_start,
    {
        let tile_end: usize = if total - tile_start > query_tile_size {
            tile_start + query_tile_size
        } else {
            total
        };
        let mut row: usize = tile_start;
        while row < tile_end
            invariant
                tile_start <= row <= tile_end <= total == scores@.len() == complete_counts@.len(),
                0 <= complete_blocks < i32::MAX,
                forall|r: int|
                    0 <= r < scores@.len() ==> (#[trigger] scores@[r])@.len() == complete_blocks
                        && rankable(scores@[r]@, complete_blocks as int),
                block_topk < usize::MAX,
                block_tile_size > 0,
                selected@.len() == row,
                forall|r: int|
                    0 <= r < row ==> (#[trigger] selected@[r])@ == row_blocks(
                        scores@[r]@,
                        complete_counts@[r] as int,
                        block_topk as nat,
                        complete_blocks as int,
                    ),
            decreases tile_end - row,
        {
            assert(scores@[row as int]@.len() == complete_blocks);
            selected.push(
                tiled_row(
                    &scores[row],
                    complete_counts[row],
                    block_topk,
                    block_tile_size,
                    complete_blocks,
                ),
            );
            row = row + 1;
        }
        tile_start = tile_end;
    }
    selected
}

proof fn rank_names_its_block(score: int, block: int, blocks: int)
    requires
        0 <= score,
        0 <= block <= blocks,
    ensures
        block_rank(score, block, blocks) >= 0,
        block_rank(score, block, blocks) % (blocks + 1) == block,
{
    assert(score * (blocks + 1) >= 0) by (nonlinear_arith)
        requires
            score >= 0,
            blocks >= 0,
    ;
    vstd::arithmetic::div_mod::lemma_mod_multiples_vanish(score, block, blocks + 1);
    vstd::arithmetic::div_mod::lemma_small_mod(block as nat, (blocks + 1) as nat);
    assert(block_rank(score, block, blocks) == (blocks + 1) * score + block) by (nonlinear_arith)
        requires
            block_rank(score, block, blocks) == score * (blocks + 1) + block,
    ;
}

/// A row that sees at least `k` blocks keeps `k` different blocks, all of which it sees.
pub proof fn kept_blocks_are_seen(scores: Seq<i32>, count: int, k: nat, blocks: int)
    requires
        scores.len() == blocks < i32::MAX,
        k <= count <= blocks,
        rankable(scores, blocks),
    ensures
        row_blocks(scores, count, k, blocks).len() == k,
        forall|i: int|
            0 <= i < k ==> 0 <= #[trigger] row_blocks(scores, count, k, blocks)[i] < count,
        row_blocks(scores, count, k, blocks).no_duplicates(),
        forall|i: int|
            0 <= i < k ==> #[trigger] largest(ranks(scores, 0, blocks, count), k)[i] == block_rank(
                scores[row_blocks(scores, count, k, blocks)[i] as int] as int,
                row_blocks(scores, count, k, blocks)[i] as int,
                blocks,
            ),
{
    let all = ranks(scores, 0, blocks, count);
    let seen = all.take(count);
    let unseen = all.skip(count);
    let kept = largest(seen, k);
    assert(all == seen + unseen);
    assert forall|i: int| 0 <= i < count implies #[trigger] seen[i] == block_rank(
        scores[i] as int,
        i,
        blocks,
    ) && seen[i] >= 0 && seen[i] as int % (blocks + 1) == i by {
        rank_names_its_block(scores[i] as int, i, blocks);
        assert(scores[i] * (blocks + 1) + blocks <= i32::MAX);
    }
    largest_ignores_small_tail(seen, unseen, k);
    sorting_rearranges(seen);
    assert(largest(all, k) == kept);
    let chosen = row_blocks(scores, count, k, blocks);
    assert forall|i: int| 0 <= i < k implies 0 <= #[trigger] chosen[i] < count && kept[i]
        == block_rank(scores[chosen[i] as int] as int, chosen[i] as int, blocks) && seen[chosen[i] as int]
        == kept[i] by {
        sorted_values_come_from(seen, i);
        let at = seen.index_of(sorted_descending(seen)[i]);
        assert(seen[at] == kept[i]);
    }
    assert forall|i: int| 0 <= i < k implies #[trigger] largest(
        ranks(scores, 0, blocks, count),
        k,
    )[i] == block_rank(
        scores[row_blocks(scores, count, k, blocks)[i] as int] as int,
        row_blocks(scores, count, k, blocks)[i] as int,
        blocks,
    ) by {
        assert(0 <= chosen[i] < count);
    }
    // Ranks are unique, so sorting them leaves no duplicates.
    assert(seen.no_duplicates()) by {
        assert forall|i: int, j: int| 0 <= i < j < seen.len() implies seen[i] != seen[j] by {
            assert(seen[i] as int % (blocks + 1) == i);
            assert(seen[j] as int % (blocks + 1) == j);
        }
    }
    let sorted = sorted_descending(seen);
    seen.lemma_multiset_has_no_duplicates();
    assert(sorted.to_multiset() == seen.to_multiset());
    sorted.lemma_multiset_has_no_duplicates_conv();
    assert forall|i: int, j: int| 0 <= i < j < chosen.len() implies chosen[i] != chosen[j] by {
        assert(0 <= chosen[i] < count && 0 <= chosen[j] < count);
        assert(kept[i] == sorted[i] && kept[j] == sorted[j]);
        if chosen[i] == chosen[j] {
            assert(seen[chosen[i] as int] == kept[i]);
            assert(seen[chosen[j] as int] == kept[j]);
        }
    }
}

/// A row keeps its best blocks: a seen block that is left out scores less than any kept one, or as
/// much and is the earlier of the two.
pub proof fn kept_blocks_are_best(
    scores: Seq<i32>,
    count: int,
    k: nat,
    blocks: int,
    kept: int,
    left_out: int,
)
    requires
        scores.len() == blocks < i32::MAX,
        k <= count <= blocks,
        rankable(scores, blocks),
        0 <= left_out < count,
        row_blocks(scores, count, k, blocks).contains(kept as i32),
        0 <= kept < count,
        !row_blocks(scores, count, k, blocks).contains(left_out as i32),
    ensures
        scores[left_out] < scores[kept] || (scores[left_out] == scores[kept] && left_out < kept),
{
    let all = ranks(scores, 0, blocks, count);
    let chosen = row_blocks(scores, count, k, blocks);
    kept_blocks_are_seen(scores, count, k, blocks);
    let i = chosen.index_of(kept as i32);
    assert(chosen[i] == kept as i32);
    let low = block_rank(scores[left_out] as int, left_out, blocks);
    let high = block_rank(scores[kept] as int, kept, blocks);
    assert(scores[left_out] * (blocks + 1) + blocks <= i32::MAX);
    rank_names_its_block(scores[left_out] as int, left_out, blocks);
    assert(all[left_out] == low);
    assert(largest(all, k)[i] == high);
    if largest(all, k).contains(low as i32) {
        let j = largest(all, k).index_of(low as i32);
        assert(largest(all, k)[j] == low);
        assert(chosen[j] == (low % (blocks + 1)) as i32);
        assert(chosen[j] == left_out as i32);
    }
    others_are_not_larger(all, k, low as i32, i);
    assert(low <= high);
    assert(scores[left_out] < scores[kept] || (scores[left_out] == scores[kept] && left_out
        <= kept)) by (nonlinear_arith)
        requires
            low == scores[left_out] * (blocks + 1) + left_out,
            high == scores[kept] * (blocks + 1) + kept,
            low <= high,
            0 <= left_out < blocks,
            0 <= kept < blocks,
    ;
}

/// The tokens of blocks that are given in ascending order, in order.
pub open spec fn block_tokens(blocks: Seq<i32>, ratio: int) -> Seq<i32> {
    Seq::new(
        (blocks.len() * ratio) as nat,
        |i: int| (blocks[i / ratio] * ratio + i % ratio) as i32,
    )
}

/// The tokens of the blocks that a row keeps, in the order of the sequence.
pub open spec fn kept_tokens(scores: Seq<i32>, count: int, k: nat, blocks: int, ratio: int) -> Seq<
    i32,
> {
    block_tokens(sorted_descending(row_blocks(scores, count, k, blocks)).reverse(), ratio)
}

/// The tokens from `start` up to, excluding, `end`.
pub open spec fn token_range(start: int, end: int) -> Seq<i32> {
    Seq::new((end - start) as nat, |i: int| (start + i) as i32)
}

/// Products keep the order of their left factors.
pub(crate) proof fn mul_le(left: int, right: int, factor: int)
    requires
        left <= right,
        factor >= 0,
    ensures
        left * factor <= right * factor,
{
    vstd::arithmetic::mul::lemma_mul_inequality(left, right, factor);
}

/// Sorts kept blocks and lists their tokens.
pub(crate) fn present_blocks(selected: &Vec<i32>, ratio: i32, Ghost(count): Ghost<int>) -> (tokens: Vec<i32>)
    requires
        ratio > 0,
        selected@.len() * ratio <= i32::MAX,
        0 <= count,
        count * ratio <= i32::MAX,
        forall|i: int| 0 <= i < selected@.len() ==> 0 <= #[trigger] selected@[i] < count,
    ensures
        tokens@ == block_tokens(sorted_descending(selected@).reverse(), ratio as int),
        forall|i: int| 0 <= i < tokens@.len() ==> 0 <= #[trigger] tokens@[i] < count * ratio,
{
    let total: usize = selected.len();
    assert(total <= i32::MAX) by {
        vstd::arithmetic::mul::lemma_mul_inequality(1, ratio as int, total as int);
        assert(total * ratio == ratio * total) by (nonlinear_arith);
    }
    let descending = top_k(selected.as_slice(), total);
    let ghost order = sorted_descending(selected@).reverse();
    proof {
        sorting_rearranges(selected@);
        assert(first(sorted_descending(selected@), total as nat) == sorted_descending(selected@));
        assert forall|i: int| 0 <= i < order.len() implies 0 <= #[trigger] order[i] < count by {
            sorted_values_come_from(selected@, total - 1 - i);
            let at = selected@.index_of(order[i]);
            assert(selected@[at] == order[i]);
        }
    }
    let mut tokens: Vec<i32> = Vec::new();
    let mut block: usize = 0;
    let ghost full = block_tokens(order, ratio as int);
    while block < total
        invariant
            block <= total <= i32::MAX,
            ratio > 0,
            total * ratio <= i32::MAX,
            count * ratio <= i32::MAX,
            descending@ == sorted_descending(selected@),
            descending@.len() == total,
            order == sorted_descending(selected@).reverse(),
            full == block_tokens(order, ratio as int),
            forall|i: int| 0 <= i < order.len() ==> 0 <= #[trigger] order[i] < count,
            tokens@.len() == block * ratio,
            forall|i: int| 0 <= i < tokens@.len() ==> #[trigger] tokens@[i] == full[i],
            forall|i: int| 0 <= i < tokens@.len() ==> 0 <= #[trigger] tokens@[i] < count * ratio,
        decreases total - block,
    {
        let id: i32 = descending[total - 1 - block];
        assert(id == order[block as int]);
        let mut offset: i32 = 0;
        proof {
            mul_le(id as int + 1, count, ratio as int);
            assert((id + 1) * ratio == id * ratio + ratio) by (nonlinear_arith);
            assert(id * ratio >= 0) by (nonlinear_arith)
                requires
                    id >= 0,
                    ratio > 0,
            ;
            mul_le(block as int + 1, total as int, ratio as int);
            assert((block + 1) * ratio == block * ratio + ratio) by (nonlinear_arith);
            assert(block * ratio >= 0) by (nonlinear_arith)
                requires
                    block >= 0,
                    ratio > 0,
            ;
        }
        let base: i32 = id * ratio;
        while offset < ratio
            invariant
                0 <= offset <= ratio,
                block < total,
                base == id * ratio,
                0 <= base,
                base + ratio <= count * ratio <= i32::MAX,
                id == order[block as int],
                order.len() == total,
                full == block_tokens(order, ratio as int),
                0 <= block * ratio,
                block * ratio + ratio <= total * ratio,
                tokens@.len() == block * ratio + offset,
                forall|i: int| 0 <= i < tokens@.len() ==> #[trigger] tokens@[i] == full[i],
                forall|i: int|
                    0 <= i < tokens@.len() ==> 0 <= #[trigger] tokens@[i] < count * ratio,
            decreases ratio - offset,
        {
            proof {
                let at = block * ratio + offset;
                vstd::arithmetic::div_mod::lemma_fundamental_div_mod_converse(
                    at,
                    ratio as int,
                    block as int,
                    offset as int,
                );
                assert(full[at] == (order[block as int] * ratio + offset) as i32);
            }
            tokens.push(base + offset);
            offset = offset + 1;
        }
        block = block + 1;
    }
    assert(tokens@ =~= full);
    tokens
}

pub(crate) fn push_range(tokens: &mut Vec<i32>, start: i32, end: i32)
    requires
        start <= end,
    ensures
        final(tokens)@ == old(tokens)@ + token_range(start as int, end as int),
{
    let ghost before = tokens@;
    let mut token: i32 = start;
    assert(token_range(start as int, start as int) == Seq::<i32>::empty());
    while token < end
        invariant
            start <= token <= end,
            tokens@ == before + token_range(start as int, token as int),
        decreases end - token,
    {
        tokens.push(token);
        token = token + 1;
        assert(token_range(start as int, token as int) == token_range(
            start as int,
            token - 1,
        ).push((token - 1) as i32));
    }
}

/// What a sparse layer attends to.
#[derive(Debug)]
pub enum Qwen4QsaPlan {
    /// For every row, which tokens it sees.
    Mask(Vec<Vec<bool>>),
    /// The tokens that the only row sees.
    DecodeIndices(Vec<i32>),
    /// For every row, the tokens that it sees.
    VerifyIndices(Vec<Vec<i32>>),
    /// For every row the same number of tokens, some of them padding.
    PrefillIndices { indices: Vec<Vec<i32>>, valid: Vec<Vec<bool>> },
}

/// Work to be done on the block summaries before planning.
#[derive(Debug)]
pub struct QsaSummaryPlan {
    /// Tokens after the block is appended.
    pub key_len: i32,
    /// Blocks that are complete then.
    pub complete_blocks: i32,
    /// Summaries that stay valid.
    pub cached_blocks: i32,
    /// Raw rows to summarise, from here ...
    pub raw_start: i32,
    /// ... up to, excluding, here.
    pub raw_end: i32,
    /// Rotary position of every new summary: the first token of its block.
    pub positions: Vec<i32>,
}

/// Shape of a block indexer.
#[derive(Debug, Clone, Copy, PartialEq, Eq, Structural)]
pub struct Qwen4QsaIndexer {
    pub n_heads: i32,
    pub kv_heads: i32,
    pub head_dim: i32,
    /// Tokens of a block.
    pub compress_ratio: i32,
    /// Blocks that a row keeps.
    pub block_topk: i32,
    /// Leading dimensions of a head that are rotated.
    pub rope_dims: i32,
}

/// How a sparse layer presents its selection.
#[derive(Debug, Clone, Copy, PartialEq, Eq, Structural)]
pub enum QsaRoute {
    /// Few enough blocks: attend to everything.
    Dense,
    Decode,
    Verify,
    Prefill,
    Mask,
}

/// The position that a row may look up to, excluding: itself included.
pub open spec fn row_end(past_len: int, row: int) -> int {
    past_len + row + 1
}

/// Blocks that are complete for a row.
pub open spec fn row_count(past_len: int, row: int, ratio: int) -> int {
    row_end(past_len, row) / ratio
}

impl Qwen4QsaIndexer {
    pub open spec fn wf(&self) -> bool {
        self.compress_ratio > 0 && self.block_topk >= 0
    }

    /// An indexer that keeps as many blocks as fit its token budget.
    pub fn new(
        n_heads: i32,
        kv_heads: i32,
        head_dim: i32,
        budget: usize,
        compress_ratio: usize,
        rope_dims: i32,
    ) -> (indexer: Self)
        requires
            0 < compress_ratio <= i32::MAX,
            budget / compress_ratio <= i32::MAX,
        ensures
            indexer.wf(),
            indexer.n_heads == n_heads,
            indexer.kv_heads == kv_heads,
            indexer.head_dim == head_dim,
            indexer.compress_ratio == compress_ratio,
            indexer.block_topk == budget / compress_ratio,
            indexer.rope_dims == rope_dims,
    {
        Qwen4QsaIndexer {
            n_heads,
            kv_heads,
            head_dim,
            compress_ratio: compress_ratio as i32,
            block_topk: (budget / compress_ratio) as i32,
            rope_dims,
        }
    }

    /// Brings the block summaries to a block of `sequence` new tokens: summaries of blocks that
    /// are not complete any more are dropped, missing ones are to be computed.
    pub fn plan_summaries(&self, past_len: i32, sequence: i32, summaries: Option<i32>) -> (plan:
        QsaSummaryPlan)
        requires
            self.wf(),
            0 <= past_len,
            0 <= sequence,
            past_len + sequence <= i32::MAX,
            summaries is Some ==> summaries->0 >= 0,
        ensures
            plan.key_len == past_len + sequence,
            plan.complete_blocks == plan.key_len as int / self.compress_ratio as int,
            plan.cached_blocks == (match summaries {
                Some(existing) => vstd::math::min(existing as int, plan.complete_blocks as int),
                None => 0,
            }),
            plan.raw_start == plan.cached_blocks * self.compress_ratio,
            plan.raw_end == plan.complete_blocks * self.compress_ratio,
            plan.raw_start <= plan.raw_end <= plan.key_len,
            plan.positions@.len() == plan.complete_blocks - plan.cached_blocks,
            forall|i: int|
                0 <= i < plan.positions@.len() ==> #[trigger] plan.positions@[i] == (
                plan.cached_blocks + i) * self.compress_ratio,
    {
        let ratio: i32 = self.compress_ratio;
        let key_len: i32 = past_len + sequence;
        let complete_blocks: i32 = key_len / ratio;
        let cached_blocks: i32 = match summaries {
            Some(existing) => if existing < complete_blocks {
                existing
            } else {
                complete_blocks
            },
            None => 0,
        };
        proof {
            vstd::arithmetic::div_mod::lemma_fundamental_div_mod(key_len as int, ratio as int);
            assert(ratio * complete_blocks == complete_blocks * ratio) by (nonlinear_arith);
            mul_le(cached_blocks as int, complete_blocks as int, ratio as int);
            assert(cached_blocks * ratio >= 0) by (nonlinear_arith)
                requires
                    cached_blocks >= 0,
                    ratio > 0,
            ;
        }
        let raw_start: i32 = cached_blocks * ratio;
        let raw_end: i32 = complete_blocks * ratio;
        let mut positions: Vec<i32> = Vec::new();
        let mut block: i32 = cached_blocks;
        while block < complete_blocks
            invariant
                0 <= cached_blocks <= block <= complete_blocks,
                ratio == self.compress_ratio > 0,
                complete_blocks * ratio <= key_len <= i32::MAX,
                positions@.len() == block - cached_blocks,
                forall|i: int|
                    0 <= i < positions@.len() ==> #[trigger] positions@[i] == (cached_blocks + i)
                        * ratio,
            decreases complete_blocks - block,
        {
            proof {
                mul_le(block as int, complete_blocks as int, ratio as int);
                assert(block * ratio >= 0) by (nonlinear_arith)
                    requires
                        block >= 0,
                        ratio > 0,
                ;
            }
            positions.push(block * ratio);
            block = block + 1;
        }
        QsaSummaryPlan { key_len, complete_blocks, cached_blocks, raw_start, raw_end, positions }
    }

    /// The presentation for a block of `sequence` tokens of `batch` sequences.
    pub open spec fn route(
        &self,
        batch: int,
        sequence: int,
        past_len: int,
        mode: KVCacheMode,
        force_reference: bool,
    ) -> QsaRoute {
        let ratio = self.compress_ratio as int;
        let indexable = batch == 1 && past_len / ratio > self.block_topk && mode
            != KVCacheMode::Turbo4;
        if (past_len + sequence) / ratio <= self.block_topk {
            QsaRoute::Dense
        } else if batch == 1 && sequence == 1 {
            QsaRoute::Decode
        } else if indexable && 1 < sequence < 64 {
            QsaRoute::Verify
        } else if indexable && sequence >= 64 && !force_reference {
            QsaRoute::Prefill
        } else {
            QsaRoute::Mask
        }
    }

    /// The presentation for a block of `sequence` tokens of `batch` sequences.
    pub fn plan_route(
        &self,
        batch: usize,
        sequence: usize,
        past_len: i32,
        mode: KVCacheMode,
        force_reference: bool,
    ) -> (route: QsaRoute)
        requires
            self.wf(),
            0 <= past_len,
            past_len + sequence <= i32::MAX,
        ensures
            route == self.route(
                batch as int,
                sequence as int,
                past_len as int,
                mode,
                force_reference,
            ),
    {
        let ratio: i32 = self.compress_ratio;
        if (past_len + sequence as i32) / ratio <= self.block_topk {
            return QsaRoute::Dense;
        }
        if batch == 1 && sequence == 1 {
            return QsaRoute::Decode;
        }
        let stored_plainly = match mode {
            KVCacheMode::Fp16 | KVCacheMode::Fp8 | KVCacheMode::Int8 => true,
            KVCacheMode::Turbo4 => false,
        };
        let indexable = batch == 1 && past_len / ratio > self.block_topk && stored_plainly;
        if indexable && sequence > 1 && sequence < 64 {
            QsaRoute::Verify
        } else if indexable && sequence >= 64 && !force_reference {
            QsaRoute::Prefill
        } else {
            QsaRoute::Mask
        }
    }

    /// The tokens that a row keeps, without those after its last complete block.
    pub open spec fn row_tokens(&self, scores: Seq<i32>, past_len: int, row: int) -> Seq<i32> {
        kept_tokens(
            scores,
            row_count(past_len, row, self.compress_ratio as int),
            self.block_topk as nat,
            scores.len() as int,
            self.compress_ratio as int,
        )
    }

    /// The tokens after the last complete block of a row.
    pub open spec fn row_tail(&self, past_len: int, row: int) -> Seq<i32> {
        token_range(
            row_count(past_len, row, self.compress_ratio as int) * self.compress_ratio,
            row_end(past_len, row),
        )
    }

    /// Whether a row sees a token: everything up to itself while it has no more complete blocks
    /// than it keeps, else the tokens of its kept blocks and those after its last complete block.
    pub open spec fn sees(&self, scores: Seq<i32>, past_len: int, row: int, token: int) -> bool {
        let count = row_count(past_len, row, self.compress_ratio as int);
        if count > self.block_topk {
            self.row_tokens(scores, past_len, row).contains(token as i32) || count
                * self.compress_ratio <= token < row_end(past_len, row)
        } else {
            token < row_end(past_len, row)
        }
    }

    /// One padded row of a prefill: the kept tokens, then as many tokens as a block has, the ones
    /// that do not exist yet replaced by the row's own.
    pub open spec fn padded_tail(&self, past_len: int, row: int) -> Seq<i32> {
        Seq::new(
            self.compress_ratio as nat,
            |i: int|
                {
                    let token = row_count(past_len, row, self.compress_ratio as int)
                        * self.compress_ratio + i;
                    if token < row_end(past_len, row) {
                        token as i32
                    } else {
                        (row_end(past_len, row) - 1) as i32
                    }
                },
        )
    }

    /// Which entries of a padded row count.
    pub open spec fn padded_valid(&self, kept: nat, past_len: int, row: int) -> Seq<bool> {
        Seq::new(
            kept + self.compress_ratio as nat,
            |i: int|
                i < kept || row_count(past_len, row, self.compress_ratio as int)
                    * self.compress_ratio + (i - kept) < row_end(past_len, row),
        )
    }

    /// What a row's scores have to be for a plan.
    pub open spec fn scores_fit(&self, scores: Seq<Vec<i32>>, rows: int, key_len: int) -> bool {
        let blocks = key_len / self.compress_ratio as int;
        &&& scores.len() == rows
        &&& forall|row: int|
            0 <= row < rows ==> (#[trigger] scores[row])@.len() == blocks && rankable(
                scores[row]@,
                blocks,
            )
    }
}

} // verus!
