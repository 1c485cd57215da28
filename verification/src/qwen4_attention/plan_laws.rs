//! What the rows of a block attend to, said of tokens and their blocks.

use vstd::arithmetic::div_mod::{
    lemma_div_pos_is_pos, lemma_fundamental_div_mod, lemma_fundamental_div_mod_converse,
    lemma_mod_bound,
};
use vstd::prelude::*;
use crate::qwen3_next::KVCacheMode;
use crate::qwen4_attention::plan::presentations_agree;
use crate::qwen4_attention::qsa::{
    block_tokens, kept_blocks_are_seen, mul_le, rankable, row_blocks, QsaRoute, Qwen4QsaIndexer,
};
use crate::qwen4_attention::topk::{descending, sorted_descending, sorting_rearranges};

verus! {

/// Sorting keeps exactly the values that are there, and without repetition it ascends strictly from
/// its end.
proof fn sorted_blocks(blocks: Seq<i32>)
    requires
        blocks.no_duplicates(),
    ensures
        ({
            let order = sorted_descending(blocks).reverse();
            &&& order.len() == blocks.len()
            &&& forall|id: i32| #[trigger] order.contains(id) == blocks.contains(id)
            &&& forall|i: int, j: int| 0 <= i < j < order.len() ==> order[i] < order[j]
        }),
{
    broadcast use vstd::seq_lib::group_to_multiset_ensures;

    let sorted = sorted_descending(blocks);
    let order = sorted.reverse();
    sorting_rearranges(blocks);
    blocks.lemma_multiset_has_no_duplicates();
    sorted.lemma_multiset_has_no_duplicates_conv();
    assert forall|id: i32| #[trigger] order.contains(id) == blocks.contains(id) by {
        assert(sorted.contains(id) == blocks.contains(id)) by {
            assert(sorted.to_multiset().count(id) == blocks.to_multiset().count(id));
            assert(sorted.contains(id) <==> sorted.to_multiset().count(id) > 0);
            assert(blocks.contains(id) <==> blocks.to_multiset().count(id) > 0);
        }
        if sorted.contains(id) {
            let at = sorted.index_of(id);
            assert(order[sorted.len() - 1 - at] == id);
        }
        if order.contains(id) {
            let at = order.index_of(id);
            assert(sorted[sorted.len() - 1 - at] == id);
        }
    }
    assert forall|i: int, j: int| 0 <= i < j < order.len() implies order[i] < order[j] by {
        assert(descending(sorted));
        assert(order[i] == sorted[sorted.len() - 1 - i]);
        assert(order[j] == sorted[sorted.len() - 1 - j]);
        assert(sorted[sorted.len() - 1 - j] >= sorted[sorted.len() - 1 - i]);
        assert(sorted[sorted.len() - 1 - j] != sorted[sorted.len() - 1 - i]);
    }
}

/// The tokens that ascending blocks are written out to are exactly those whose block is listed, and
/// they ascend strictly.
proof fn written_blocks(order: Seq<i32>, ratio: int, count: int)
    requires
        ratio > 0,
        count * ratio <= i32::MAX,
        forall|i: int| 0 <= i < order.len() ==> 0 <= #[trigger] order[i] < count,
        forall|i: int, j: int| 0 <= i < j < order.len() ==> order[i] < order[j],
    ensures
        forall|token: i32|
            token >= 0 ==> #[trigger] block_tokens(order, ratio).contains(token) == order.contains(
                (token as int / ratio) as i32,
            ),
        forall|i: int| 0 <= i < block_tokens(order, ratio).len() ==> #[trigger] block_tokens(
            order,
            ratio,
        )[i] >= 0,
        forall|i: int, j: int|
            0 <= i < j < block_tokens(order, ratio).len() ==> #[trigger] block_tokens(
                order,
                ratio,
            )[i] < #[trigger] block_tokens(order, ratio)[j],
{
    let tokens = block_tokens(order, ratio);
    assert forall|i: int| 0 <= i < tokens.len() implies {
        &&& 0 <= i / ratio < order.len()
        &&& 0 <= order[i / ratio] * ratio + i % ratio <= i32::MAX
        &&& #[trigger] tokens[i] == order[i / ratio] * ratio + i % ratio
        &&& tokens[i] as int / ratio == order[i / ratio]
    } by {
        place_of_token(order, ratio, count, i);
    }
    assert forall|token: i32| token >= 0 implies #[trigger] tokens.contains(token)
        == order.contains((token as int / ratio) as i32) by {
        let block = token as int / ratio;
        lemma_fundamental_div_mod(token as int, ratio);
        lemma_mod_bound(token as int, ratio);
        lemma_div_pos_is_pos(token as int, ratio);
        assert(block <= token) by (nonlinear_arith)
            requires
                token == ratio * block + token as int % ratio,
                token as int % ratio >= 0,
                ratio > 0,
                block >= 0,
        ;
        if tokens.contains(token) {
            let i = tokens.index_of(token);
            assert(tokens[i] == token);
            assert(order[i / ratio] == block as i32);
        }
        if order.contains(block as i32) {
            let at = order.index_of(block as i32);
            assert(order[at] == block as i32);
            let i = at * ratio + token as int % ratio;
            lemma_fundamental_div_mod_converse(i, ratio, at, token as int % ratio);
            mul_le(at + 1, order.len() as int, ratio);
            assert((at + 1) * ratio == at * ratio + ratio) by (nonlinear_arith);
            assert(at * ratio >= 0) by (nonlinear_arith)
                requires
                    at >= 0,
                    ratio > 0,
            ;
            assert(ratio * block == block * ratio) by (nonlinear_arith);
            assert(tokens[i] == token);
        }
    }
    assert forall|i: int, j: int| 0 <= i < j < tokens.len() implies #[trigger] tokens[i]
        < #[trigger] tokens[j] by {
        let (a, b) = (i / ratio, j / ratio);
        assert(tokens[i] == order[a] * ratio + i % ratio);
        assert(tokens[j] == order[b] * ratio + j % ratio);
        lemma_fundamental_div_mod(i, ratio);
        lemma_fundamental_div_mod(j, ratio);
        lemma_mod_bound(i, ratio);
        lemma_mod_bound(j, ratio);
        vstd::arithmetic::div_mod::lemma_div_is_ordered(i, j, ratio);
        if a < b {
            assert(order[a] < order[b]);
            mul_le(order[a] + 1, order[b] as int, ratio);
            assert((order[a] + 1) * ratio == order[a] * ratio + ratio) by (nonlinear_arith);
        }
    }
}

proof fn place_of_token(order: Seq<i32>, ratio: int, count: int, i: int)
    requires
        ratio > 0,
        count * ratio <= i32::MAX,
        forall|i: int| 0 <= i < order.len() ==> 0 <= #[trigger] order[i] < count,
        0 <= i < block_tokens(order, ratio).len(),
    ensures
        0 <= i / ratio < order.len(),
        0 <= order[i / ratio] * ratio + i % ratio <= i32::MAX,
        block_tokens(order, ratio)[i] == order[i / ratio] * ratio + i % ratio,
        block_tokens(order, ratio)[i] as int / ratio == order[i / ratio],
{
    let at = i / ratio;
    lemma_fundamental_div_mod(i, ratio);
    lemma_mod_bound(i, ratio);
    lemma_div_pos_is_pos(i, ratio);
    assert(order.len() * ratio >= 0) by (nonlinear_arith)
        requires
            ratio > 0,
            order.len() >= 0,
    ;
    assert(at < order.len()) by (nonlinear_arith)
        requires
            i == ratio * at + i % ratio,
            i % ratio >= 0,
            i < order.len() * ratio,
            ratio > 0,
    ;
    let id = order[at] as int;
    mul_le(id + 1, count, ratio);
    assert((id + 1) * ratio == id * ratio + ratio) by (nonlinear_arith);
    assert(id * ratio >= 0) by (nonlinear_arith)
        requires
            id >= 0,
            ratio > 0,
    ;
    lemma_fundamental_div_mod_converse(id * ratio + i % ratio, ratio, id, i % ratio);
}

/// A sparse row lists a token among its kept ones exactly if the token's block is one of the blocks
/// that the row keeps. The tokens ascend strictly, so that none is listed twice.
pub proof fn kept_tokens_are_those_of_kept_blocks(
    indexer: Qwen4QsaIndexer,
    scores: Seq<i32>,
    past_len: int,
    sequence: int,
    row: int,
)
    requires
        indexer.compress_ratio > 0,
        indexer.block_topk >= 0,
        0 <= past_len,
        0 <= row < sequence,
        past_len + sequence < i32::MAX,
        scores.len() == (past_len + sequence) / indexer.compress_ratio as int,
        rankable(scores, scores.len() as int),
        (past_len + row + 1) / indexer.compress_ratio as int > indexer.block_topk,
    ensures
        ({
            let ratio = indexer.compress_ratio as int;
            let tokens = indexer.row_tokens(scores, past_len, row);
            let blocks = row_blocks(
                scores,
                (past_len + row + 1) / ratio,
                indexer.block_topk as nat,
                scores.len() as int,
            );
            &&& tokens.len() == indexer.block_topk * ratio
            &&& forall|token: i32|
                token >= 0 ==> #[trigger] tokens.contains(token) == blocks.contains(
                    (token as int / ratio) as i32,
                )
            &&& forall|i: int| 0 <= i < tokens.len() ==> #[trigger] tokens[i] >= 0
            &&& forall|i: int, j: int|
                0 <= i < j < tokens.len() ==> #[trigger] tokens[i] < #[trigger] tokens[j]
        }),
{
    let ratio = indexer.compress_ratio as int;
    let end = past_len + row + 1;
    let count = end / ratio;
    let k = indexer.block_topk as nat;
    let blocks = row_blocks(scores, count, k, scores.len() as int);
    vstd::arithmetic::div_mod::lemma_div_is_ordered(end, past_len + sequence, ratio);
    lemma_fundamental_div_mod(end, ratio);
    lemma_mod_bound(end, ratio);
    assert(ratio * count == count * ratio) by (nonlinear_arith);
    let all = past_len + sequence;
    lemma_div_pos_is_pos(all, ratio);
    lemma_fundamental_div_mod(all, ratio);
    lemma_mod_bound(all, ratio);
    assert(scores.len() <= all) by (nonlinear_arith)
        requires
            all == ratio * scores.len() + all % ratio,
            all % ratio >= 0,
            ratio > 0,
            scores.len() >= 0,
    ;
    kept_blocks_are_seen(scores, count, k, scores.len() as int);
    sorted_blocks(blocks);
    let order = sorted_descending(blocks).reverse();
    assert forall|i: int| 0 <= i < order.len() implies 0 <= #[trigger] order[i] < count by {
        assert(order.contains(order[i]));
        let at = blocks.index_of(order[i]);
        assert(blocks[at] == order[i]);
    }
    written_blocks(order, ratio, count);
    assert(indexer.row_tokens(scores, past_len, row) == block_tokens(order, ratio));
    assert(order.len() * ratio >= 0) by (nonlinear_arith)
        requires
            ratio > 0,
            order.len() >= 0,
    ;
    assert forall|token: i32| token >= 0 implies #[trigger] block_tokens(order, ratio).contains(
        token,
    ) == blocks.contains((token as int / ratio) as i32) by {
        assert(order.contains((token as int / ratio) as i32) == blocks.contains(
            (token as int / ratio) as i32,
        ));
    }
}

/// What a row sees: nothing after itself. While it has no more complete blocks than it may keep, it
/// sees everything up to itself; else it sees the tokens after its last complete block and those of
/// the blocks that it keeps.
pub proof fn rows_see_kept_blocks_and_tail(
    indexer: Qwen4QsaIndexer,
    scores: Seq<i32>,
    past_len: int,
    sequence: int,
    row: int,
    token: i32,
)
    requires
        indexer.compress_ratio > 0,
        indexer.block_topk >= 0,
        0 <= past_len,
        0 <= row < sequence,
        past_len + sequence < i32::MAX,
        scores.len() == (past_len + sequence) / indexer.compress_ratio as int,
        rankable(scores, scores.len() as int),
        0 <= token,
    ensures
        ({
            let ratio = indexer.compress_ratio as int;
            let complete = (past_len + row + 1) / ratio;
            let block = token as int / ratio;
            let kept = row_blocks(
                scores,
                complete,
                indexer.block_topk as nat,
                scores.len() as int,
            );
            indexer.sees(scores, past_len, row, token as int) == (token <= past_len + row && (
            complete <= indexer.block_topk || block == complete || kept.contains(block as i32)))
        }),
        ({
            let ratio = indexer.compress_ratio as int;
            let sparse = (past_len + row + 1) / ratio > indexer.block_topk;
            let kept = indexer.row_tokens(scores, past_len, row);
            let listed = kept + indexer.row_tail(past_len, row);
            let padded = kept + indexer.padded_tail(past_len, row);
            let valid = indexer.padded_valid(kept.len(), past_len, row);
            sparse ==> {
                &&& listed.contains(token) == indexer.sees(scores, past_len, row, token as int)
                &&& (exists|i: int|
                    0 <= i < padded.len() && #[trigger] padded[i] == token && valid[i])
                    == indexer.sees(scores, past_len, row, token as int)
            }
        }),
{
    let ratio = indexer.compress_ratio as int;
    let end = past_len + row + 1;
    let complete = end / ratio;
    let block = token as int / ratio;
    lemma_fundamental_div_mod(end, ratio);
    lemma_mod_bound(end, ratio);
    lemma_fundamental_div_mod(token as int, ratio);
    lemma_mod_bound(token as int, ratio);
    assert(ratio * complete == complete * ratio) by (nonlinear_arith);
    assert(ratio * block == block * ratio) by (nonlinear_arith);
    if complete > indexer.block_topk {
        kept_tokens_are_those_of_kept_blocks(indexer, scores, past_len, sequence, row);
        presentations_agree(indexer, scores, past_len, sequence, row, token as int);
        let kept = row_blocks(scores, complete, indexer.block_topk as nat, scores.len() as int);
        vstd::arithmetic::div_mod::lemma_div_is_ordered(end, past_len + sequence, ratio);
        let all = past_len + sequence;
        lemma_div_pos_is_pos(all, ratio);
        lemma_fundamental_div_mod(all, ratio);
        lemma_mod_bound(all, ratio);
        assert(scores.len() <= all) by (nonlinear_arith)
            requires
                all == ratio * scores.len() + all % ratio,
                all % ratio >= 0,
                ratio > 0,
                scores.len() >= 0,
        ;
        kept_blocks_are_seen(scores, complete, indexer.block_topk as nat, scores.len() as int);
        lemma_div_pos_is_pos(token as int, ratio);
        assert(block <= token) by (nonlinear_arith)
            requires
                token == ratio * block + token as int % ratio,
                token as int % ratio >= 0,
                ratio > 0,
                block >= 0,
        ;
        if kept.contains(block as i32) {
            let at = kept.index_of(block as i32);
            assert(kept[at] == block as i32);
            mul_le(block + 1, complete, ratio);
            assert((block + 1) * ratio == block * ratio + ratio) by (nonlinear_arith);
        }
        if token < complete * ratio {
            assert(block < complete) by (nonlinear_arith)
                requires
                    token == ratio * block + token as int % ratio,
                    token as int % ratio >= 0,
                    token < complete * ratio,
                    ratio > 0,
            ;
        } else {
            assert(block >= complete) by (nonlinear_arith)
                requires
                    token == ratio * block + token as int % ratio,
                    (token as int % ratio) < ratio,
                    token >= complete * ratio,
                    ratio > 0,
            ;
            if token <= past_len + row {
                assert(block <= complete) by (nonlinear_arith)
                    requires
                        token == ratio * block + token as int % ratio,
                        token as int % ratio >= 0,
                        token < end,
                        end == complete * ratio + end % ratio,
                        end % ratio < ratio,
                        ratio > 0,
                ;
            }
        }
    }
}

/// Blocks of tokens go through one presentation each. Nothing is left out while no row has more
/// complete blocks than it keeps. Beyond that a single token of a single sequence is decoded;
/// several sequences, or keys that cannot be picked out, get a mask; short blocks of up to
/// sixty-three tokens are never padded and longer ones never listed; and the padded form is not used
/// where the reference is asked for.
pub proof fn routes_are_apart(
    indexer: Qwen4QsaIndexer,
    batch: int,
    sequence: int,
    past_len: int,
    mode: KVCacheMode,
    force_reference: bool,
)
    requires
        indexer.compress_ratio > 0,
        indexer.block_topk >= 0,
        0 <= past_len,
        1 <= sequence,
        1 <= batch,
    ensures
        ({
            let route = indexer.route(batch, sequence, past_len, mode, force_reference);
            let ratio = indexer.compress_ratio as int;
            let sparse = indexer.block_topk < (past_len + sequence) / ratio;
            let filled = indexer.block_topk < past_len / ratio;
            &&& route == QsaRoute::Dense <==> !sparse
            &&& sparse && batch == 1 && sequence == 1 <==> route == QsaRoute::Decode
            &&& sparse && batch > 1 ==> route == QsaRoute::Mask
            &&& sparse && sequence > 1 && mode == KVCacheMode::Turbo4 ==> route == QsaRoute::Mask
            &&& sparse && sequence > 1 && !filled ==> route == QsaRoute::Mask
            &&& route == QsaRoute::Verify ==> 2 <= sequence <= 63
            &&& route == QsaRoute::Prefill ==> 64 <= sequence && !force_reference
            &&& filled && batch == 1 && mode != KVCacheMode::Turbo4 && 2 <= sequence <= 63 ==> route
                == QsaRoute::Verify
            &&& filled && batch == 1 && mode != KVCacheMode::Turbo4 && 64 <= sequence
                && !force_reference ==> route == QsaRoute::Prefill
            &&& force_reference && 64 <= sequence && sparse ==> route == QsaRoute::Mask
        }),
{
    vstd::arithmetic::div_mod::lemma_div_is_ordered(
        past_len,
        past_len + sequence,
        indexer.compress_ratio as int,
    );
}

} // verus!
