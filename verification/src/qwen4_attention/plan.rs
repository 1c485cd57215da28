//! From block scores to the tokens that each row attends to.

use vstd::prelude::*;
use crate::qwen3_next::KVCacheMode;
use crate::qwen4_attention::qsa::{
    block_tokens,
    kept_blocks_are_seen,
    mul_le,
    present_blocks,
    push_range,
    qsa_ranked_tile,
    qsa_tiled_topk_block_ids,
    qsa_topk_block_ids,
    rankable,
    row_blocks,
    row_count,
    row_end,
    QsaRoute,
    Qwen4PrefillPolicy,
    Qwen4QsaIndexer,
    Qwen4QsaPlan,
    QSA_PREFILL_BLOCK_TILE,
    QSA_PREFILL_QUERY_TILE,
};
use crate::qwen4_attention::topk::{sorted_descending, sorted_values_come_from, sorting_rearranges};

verus! {

/// Where a row's complete blocks end, relative to the row and to the whole block.
proof fn row_geometry(past_len: int, sequence: int, row: int, ratio: int)
    requires
        0 <= past_len,
        0 <= row < sequence,
        ratio > 0,
    ensures
        0 <= past_len / ratio <= row_count(past_len, row, ratio) <= (past_len + sequence) / ratio,
        0 <= row_count(past_len, row, ratio) * ratio <= row_end(past_len, row) <= past_len
            + sequence,
        row_end(past_len, row) < row_count(past_len, row, ratio) * ratio + ratio,
{
    let end = row_end(past_len, row);
    let count = row_count(past_len, row, ratio);
    vstd::arithmetic::div_mod::lemma_div_is_ordered(past_len, end, ratio);
    vstd::arithmetic::div_mod::lemma_div_is_ordered(end, past_len + sequence, ratio);
    vstd::arithmetic::div_mod::lemma_div_pos_is_pos(past_len, ratio);
    vstd::arithmetic::div_mod::lemma_fundamental_div_mod(end, ratio);
    vstd::arithmetic::div_mod::lemma_mod_bound(end, ratio);
    assert(ratio * count == count * ratio) by (nonlinear_arith);
    assert(count * ratio >= 0) by (nonlinear_arith)
        requires
            count >= 0,
            ratio > 0,
    ;
}

impl Qwen4QsaIndexer {
    /// Rows that have more complete blocks than they keep see only some of them.
    spec fn is_sparse(&self, past_len: int, row: int) -> bool {
        row_count(past_len, row, self.compress_ratio as int) > self.block_topk
    }

    /// The position of a flattened row within its sequence.
    pub open spec fn row_of(flat: int, sequence: int) -> int {
        flat % sequence
    }

    fn row_counts(&self, rows: usize, sequence: usize, past_len: i32) -> (counts: Vec<i32>)
        requires
            self.wf(),
            0 <= past_len,
            sequence > 0,
            past_len + sequence < i32::MAX,
        ensures
            counts@.len() == rows,
            forall|flat: int|
                0 <= flat < rows ==> #[trigger] counts@[flat] == row_count(
                    past_len as int,
                    Self::row_of(flat, sequence as int),
                    self.compress_ratio as int,
                ),
    {
        let mut counts: Vec<i32> = Vec::new();
        let mut flat: usize = 0;
        while flat < rows
            invariant
                flat <= rows,
                self.wf(),
                0 <= past_len,
                sequence > 0,
                past_len + sequence < i32::MAX,
                counts@.len() == flat,
                forall|i: int|
                    0 <= i < flat ==> #[trigger] counts@[i] == row_count(
                        past_len as int,
                        Self::row_of(i, sequence as int),
                        self.compress_ratio as int,
                    ),
            decreases rows - flat,
        {
            let row: usize = flat % sequence;
            let end: i32 = past_len + row as i32 + 1;
            counts.push(end / self.compress_ratio);
            flat = flat + 1;
        }
        counts
    }

    /// The blocks that every sparse row keeps. Rows that see everything get an empty list.
    fn choose_blocks(
        &self,
        scores: &Vec<Vec<i32>>,
        counts: &Vec<i32>,
        sequence: usize,
        past_len: i32,
        complete_blocks: i32,
    ) -> (selected: Vec<Vec<i32>>)
        requires
            self.wf(),
            0 <= past_len,
            0 <= complete_blocks < i32::MAX,
            self.block_topk < i32::MAX,
            counts@.len() == scores@.len(),
            forall|row: int|
                0 <= row < scores@.len() ==> (#[trigger] scores@[row])@.len() == complete_blocks
                    && rankable(scores@[row]@, complete_blocks as int),
        ensures
            selected@.len() == scores@.len(),
            forall|row: int|
                0 <= row < scores@.len() && counts@[row] > self.block_topk ==> (
                #[trigger] selected@[row])@ == row_blocks(
                    scores@[row]@,
                    counts@[row] as int,
                    self.block_topk as nat,
                    complete_blocks as int,
                ),
    {
        let all_rows_have_topk = past_len / self.compress_ratio > self.block_topk;
        if all_rows_have_topk && sequence > QSA_PREFILL_QUERY_TILE && complete_blocks
            > QSA_PREFILL_BLOCK_TILE as i32 {
            return qsa_tiled_topk_block_ids(
                scores,
                counts.as_slice(),
                self.block_topk as usize,
                QSA_PREFILL_QUERY_TILE,
                QSA_PREFILL_BLOCK_TILE,
                complete_blocks,
            );
        }
        let mut selected: Vec<Vec<i32>> = Vec::new();
        let mut row: usize = 0;
        while row < scores.len()
            invariant
                row <= scores@.len() == counts@.len(),
                0 <= complete_blocks < i32::MAX,
                0 <= self.block_topk < i32::MAX,
                forall|r: int|
                    0 <= r < scores@.len() ==> (#[trigger] scores@[r])@.len() == complete_blocks
                        && rankable(scores@[r]@, complete_blocks as int),
                selected@.len() == row,
                forall|r: int|
                    0 <= r < row && counts@[r] > self.block_topk ==> (#[trigger] selected@[r])@
                        == row_blocks(
                        scores@[r]@,
                        counts@[r] as int,
                        self.block_topk as nat,
                        complete_blocks as int,
                    ),
            decreases scores@.len() - row,
        {
            if counts[row] > self.block_topk {
                assert(scores@[row as int]@.len() == complete_blocks);
                let ranked = qsa_ranked_tile(
                    scores[row].as_slice(),
                    0,
                    complete_blocks,
                    counts[row],
                );
                selected.push(
                    qsa_topk_block_ids(
                        ranked.as_slice(),
                        self.block_topk as usize,
                        complete_blocks,
                    ),
                );
            } else {
                selected.push(Vec::new());
            }
            row = row + 1;
        }
        selected
    }

    /// The tokens of one sparse row's blocks.
    fn tokens_of_row(
        &self,
        selected: &Vec<i32>,
        Ghost(scores): Ghost<Seq<i32>>,
        past_len: i32,
        sequence: usize,
        row: usize,
    ) -> (tokens: Vec<i32>)
        requires
            self.wf(),
            0 <= past_len,
            row < sequence,
            past_len + sequence < i32::MAX,
            scores.len() == (past_len + sequence) / self.compress_ratio as int,
            rankable(scores, scores.len() as int),
            self.is_sparse(past_len as int, row as int),
            selected@ == row_blocks(
                scores,
                row_count(past_len as int, row as int, self.compress_ratio as int),
                self.block_topk as nat,
                scores.len() as int,
            ),
        ensures
            tokens@ == self.row_tokens(scores, past_len as int, row as int),
            tokens@.len() == self.block_topk * self.compress_ratio,
            forall|i: int|
                0 <= i < tokens@.len() ==> 0 <= #[trigger] tokens@[i] < row_count(
                    past_len as int,
                    row as int,
                    self.compress_ratio as int,
                ) * self.compress_ratio,
    {
        let ghost ratio = self.compress_ratio as int;
        let ghost count = row_count(past_len as int, row as int, ratio);
        proof {
            row_geometry(past_len as int, sequence as int, row as int, ratio);
            kept_blocks_are_seen(scores, count, self.block_topk as nat, scores.len() as int);
            mul_le(self.block_topk as int, count, ratio);
            sorting_rearranges(selected@);
        }
        present_blocks(selected, self.compress_ratio, Ghost(count))
    }

    /// Lists the tokens that one sparse row sees.
    fn indices_of_row(
        &self,
        selected: &Vec<i32>,
        Ghost(scores): Ghost<Seq<i32>>,
        past_len: i32,
        sequence: usize,
        row: usize,
    ) -> (tokens: Vec<i32>)
        requires
            self.wf(),
            0 <= past_len,
            row < sequence,
            past_len + sequence < i32::MAX,
            scores.len() == (past_len + sequence) / self.compress_ratio as int,
            rankable(scores, scores.len() as int),
            self.is_sparse(past_len as int, row as int),
            selected@ == row_blocks(
                scores,
                row_count(past_len as int, row as int, self.compress_ratio as int),
                self.block_topk as nat,
                scores.len() as int,
            ),
        ensures
            tokens@ == self.row_tokens(scores, past_len as int, row as int) + self.row_tail(
                past_len as int,
                row as int,
            ),
    {
        let mut tokens = self.tokens_of_row(selected, Ghost(scores), past_len, sequence, row);
        proof {
            row_geometry(
                past_len as int,
                sequence as int,
                row as int,
                self.compress_ratio as int,
            );
        }
        let end: i32 = past_len + row as i32 + 1;
        let complete_end: i32 = (end / self.compress_ratio) * self.compress_ratio;
        push_range(&mut tokens, complete_end, end);
        tokens
    }

    /// Pads one sparse row to a fixed number of entries.
    fn padded_row(
        &self,
        selected: &Vec<i32>,
        Ghost(scores): Ghost<Seq<i32>>,
        past_len: i32,
        sequence: usize,
        row: usize,
    ) -> (padded: (Vec<i32>, Vec<bool>))
        requires
            self.wf(),
            0 <= past_len,
            row < sequence,
            past_len + sequence < i32::MAX,
            past_len + sequence + self.compress_ratio <= i32::MAX,
            scores.len() == (past_len + sequence) / self.compress_ratio as int,
            rankable(scores, scores.len() as int),
            self.is_sparse(past_len as int, row as int),
            selected@ == row_blocks(
                scores,
                row_count(past_len as int, row as int, self.compress_ratio as int),
                self.block_topk as nat,
                scores.len() as int,
            ),
        ensures
            padded.0@ == self.row_tokens(scores, past_len as int, row as int) + self.padded_tail(
                past_len as int,
                row as int,
            ),
            padded.1@ == self.padded_valid(
                self.row_tokens(scores, past_len as int, row as int).len(),
                past_len as int,
                row as int,
            ),
    {
        let ratio: i32 = self.compress_ratio;
        let mut indices = self.tokens_of_row(selected, Ghost(scores), past_len, sequence, row);
        let ghost kept = indices@;
        proof {
            row_geometry(past_len as int, sequence as int, row as int, ratio as int);
        }
        let ghost count = row_count(past_len as int, row as int, ratio as int);
        let end: i32 = past_len + row as i32 + 1;
        let start: i32 = (end / ratio) * ratio;
        let length: usize = indices.len();
        let mut valid: Vec<bool> = Vec::new();
        valid.resize(length, true);
        let mut offset: i32 = 0;
        while offset < ratio
            invariant
                0 <= offset <= ratio == self.compress_ratio,
                start == count * ratio,
                count == row_count(past_len as int, row as int, ratio as int),
                end == row_end(past_len as int, row as int),
                0 <= start <= end,
                start + ratio <= i32::MAX,
                end >= 1,
                length == kept.len(),
                indices@ == kept + self.padded_tail(past_len as int, row as int).take(
                    offset as int,
                ),
                valid@.len() == length + offset,
                forall|i: int| 0 <= i < length ==> valid@[i],
                forall|i: int|
                    length <= i < length + offset ==> #[trigger] valid@[i] == (start + (i - length)
                        < end),
            decreases ratio - offset,
        {
            let token: i32 = start + offset;
            let inside = token < end;
            let ghost tail = self.padded_tail(past_len as int, row as int);
            indices.push(
                if inside {
                    token
                } else {
                    end - 1
                },
            );
            valid.push(inside);
            assert(tail.take(offset + 1) == tail.take(offset as int).push(tail[offset as int]));
            offset = offset + 1;
        }
        proof {
            let tail = self.padded_tail(past_len as int, row as int);
            assert(tail.take(ratio as int) == tail);
            assert(valid@ =~= self.padded_valid(length as nat, past_len as int, row as int));
        }
        (indices, valid)
    }

    /// Marks the tokens that one row sees.
    fn mask_of_row(
        &self,
        selected: &Vec<i32>,
        Ghost(scores): Ghost<Seq<i32>>,
        past_len: i32,
        sequence: usize,
        row: usize,
    ) -> (mask: Vec<bool>)
        requires
            self.wf(),
            0 <= past_len,
            row < sequence,
            past_len + sequence < i32::MAX,
            scores.len() == (past_len + sequence) / self.compress_ratio as int,
            rankable(scores, scores.len() as int),
            self.is_sparse(past_len as int, row as int) ==> selected@ == row_blocks(
                scores,
                row_count(past_len as int, row as int, self.compress_ratio as int),
                self.block_topk as nat,
                scores.len() as int,
            ),
        ensures
            mask@.len() == past_len + sequence,
            forall|token: int|
                0 <= token < mask@.len() ==> #[trigger] mask@[token] == self.sees(
                    scores,
                    past_len as int,
                    row as int,
                    token,
                ),
    {
        let ratio: i32 = self.compress_ratio;
        let key_len: usize = past_len as usize + sequence;
        let end: i32 = past_len + row as i32 + 1;
        let count: i32 = end / ratio;
        proof {
            row_geometry(past_len as int, sequence as int, row as int, ratio as int);
        }
        let mut mask: Vec<bool> = Vec::new();
        if count > self.block_topk {
            let tokens = self.tokens_of_row(selected, Ghost(scores), past_len, sequence, row);
            let start: i32 = count * ratio;
            let mut token: i32 = 0;
            while token < key_len as i32
                invariant
                    0 <= token <= key_len == past_len + sequence,
                    key_len < i32::MAX,
                    mask@.len() == token,
                    forall|t: int|
                        0 <= t < token ==> #[trigger] mask@[t] == (start <= t < end),
                decreases key_len - token,
            {
                mask.push(start <= token && token < end);
                token = token + 1;
            }
            let mut index: usize = 0;
            while index < tokens.len()
                invariant
                    index <= tokens@.len(),
                    mask@.len() == key_len,
                    start <= end <= key_len,
                    forall|i: int|
                        0 <= i < tokens@.len() ==> 0 <= #[trigger] tokens@[i] < start,
                    forall|t: int|
                        0 <= t < key_len ==> #[trigger] mask@[t] == (tokens@.take(
                            index as int,
                        ).contains(t as i32) || start <= t < end),
                    key_len < i32::MAX,
                decreases tokens@.len() - index,
            {
                let token: i32 = tokens[index];
                let ghost before = mask@;
                let ghost seen = tokens@.take(index as int);
                let ghost more = tokens@.take(index + 1);
                assert(tokens@[index as int] == token);
                mask.set(token as usize, true);
                proof {
                    assert(more == seen.push(token));
                    assert forall|t: int| 0 <= t < key_len implies #[trigger] mask@[t] == (
                    more.contains(t as i32) || start <= t < end) by {
                        if t == token {
                            assert(more[index as int] == token);
                        } else {
                            assert(mask@[t] == before[t]);
                            if seen.contains(t as i32) {
                                let at = seen.index_of(t as i32);
                                assert(more[at] == t as i32);
                            }
                            if more.contains(t as i32) {
                                let at = more.index_of(t as i32);
                                assert(more[at] == t as i32);
                                assert(at < index);
                                assert(seen[at] == t as i32);
                            }
                        }
                    }
                }
                index = index + 1;
            }
            assert(tokens@.take(tokens@.len() as int) == tokens@);
        } else {
            let mut token: i32 = 0;
            while token < key_len as i32
                invariant
                    0 <= token <= key_len == past_len + sequence,
                    key_len < i32::MAX,
                    mask@.len() == token,
                    forall|t: int| 0 <= t < token ==> #[trigger] mask@[t] == (t < end),
                decreases key_len - token,
            {
                mask.push(token < end);
                token = token + 1;
            }
        }
        mask
    }

    /// Plans what every row of a block attends to, from its scores of all complete blocks; `None`
    /// when everything is attended to. Rows are numbered sequence by sequence.
    pub fn plan(
        &self,
        batch: usize,
        sequence: usize,
        past_len: i32,
        mode: KVCacheMode,
        policy: &mut Qwen4PrefillPolicy,
        scores: &Vec<Vec<i32>>,
    ) -> (plan: Option<Qwen4QsaPlan>)
        requires
            self.wf(),
            0 <= past_len,
            sequence > 0,
            past_len + sequence + self.compress_ratio <= i32::MAX,
            batch * sequence <= usize::MAX,
            self.scores_fit(scores@, batch * sequence, past_len + sequence),
        ensures
            ({
                let route = self.route(
                    batch as int,
                    sequence as int,
                    past_len as int,
                    mode,
                    old(policy).force_reference,
                );
                let past = past_len as int;
                &&& match route {
                    QsaRoute::Dense => plan is None,
                    QsaRoute::Decode => {
                        &&& plan matches Some(Qwen4QsaPlan::DecodeIndices(tokens))
                        &&& tokens@ == self.row_tokens(scores@[0]@, past, 0) + self.row_tail(
                            past,
                            0,
                        )
                    },
                    QsaRoute::Verify => {
                        &&& plan matches Some(Qwen4QsaPlan::VerifyIndices(rows))
                        &&& rows@.len() == sequence
                        &&& forall|row: int|
                            0 <= row < sequence ==> (#[trigger] rows@[row])@ == self.row_tokens(
                                scores@[row]@,
                                past,
                                row,
                            ) + self.row_tail(past, row)
                    },
                    QsaRoute::Prefill => {
                        &&& plan matches Some(Qwen4QsaPlan::PrefillIndices { indices, valid })
                        &&& indices@.len() == sequence
                        &&& valid@.len() == sequence
                        &&& forall|row: int|
                            0 <= row < sequence ==> (#[trigger] indices@[row])@ == self.row_tokens(
                                scores@[row]@,
                                past,
                                row,
                            ) + self.padded_tail(past, row)
                        &&& forall|row: int|
                            0 <= row < sequence ==> (#[trigger] valid@[row])@ == self.padded_valid(
                                self.row_tokens(scores@[row]@, past, row).len(),
                                past,
                                row,
                            )
                    },
                    QsaRoute::Mask => {
                        &&& plan matches Some(Qwen4QsaPlan::Mask(rows))
                        &&& rows@.len() == batch * sequence
                        &&& forall|flat: int|
                            0 <= flat < rows@.len() ==> (#[trigger] rows@[flat])@.len() == past
                                + sequence
                        &&& forall|flat: int, token: int|
                            0 <= flat < rows@.len() && 0 <= token < past + sequence
                                ==> #[trigger] rows@[flat]@[token] == self.sees(
                                scores@[flat]@,
                                past,
                                Self::row_of(flat, sequence as int),
                                token,
                            )
                    },
                }
                &&& final(policy).force_reference == old(policy).force_reference
                &&& final(policy).used_approximate == (old(policy).used_approximate || route
                    == QsaRoute::Prefill)
            }),
    {
        let ratio: i32 = self.compress_ratio;
        let ghost past = past_len as int;
        let route = self.plan_route(batch, sequence, past_len, mode, policy.force_reference);
        if route == QsaRoute::Dense {
            return None;
        }
        let rows: usize = scores.len();
        let complete_blocks: i32 = (past_len + sequence as i32) / ratio;
        let counts = self.row_counts(rows, sequence, past_len);
        let selected = self.choose_blocks(scores, &counts, sequence, past_len, complete_blocks);
        proof {
            assert forall|flat: int| 0 <= flat < rows implies 0 <= #[trigger] Self::row_of(
                flat,
                sequence as int,
            ) < sequence by {
                vstd::arithmetic::div_mod::lemma_mod_bound(flat, sequence as int);
            }
            if batch == 1 {
                assert(batch * sequence == sequence) by (nonlinear_arith)
                    requires
                        batch == 1,
                ;
                assert forall|flat: int| 0 <= flat < rows implies #[trigger] Self::row_of(
                    flat,
                    sequence as int,
                ) == flat by {
                    vstd::arithmetic::div_mod::lemma_small_mod(flat as nat, sequence as nat);
                }
            }
            if route == QsaRoute::Verify || route == QsaRoute::Prefill {
                assert forall|row: int| 0 <= row < sequence implies #[trigger] counts@[row]
                    > self.block_topk by {
                    row_geometry(past, sequence as int, row, ratio as int);
                    assert(Self::row_of(row, sequence as int) == row);
                }
            }
        }
        match route {
            QsaRoute::Dense => None,
            QsaRoute::Decode => {
                proof {
                    assert(Self::row_of(0, sequence as int) == 0);
                    assert(self.is_sparse(past, 0));
                    assert(counts@[0] > self.block_topk);
                }
                let tokens = self.indices_of_row(
                    &selected[0],
                    Ghost(scores@[0]@),
                    past_len,
                    sequence,
                    0,
                );
                Some(Qwen4QsaPlan::DecodeIndices(tokens))
            },
            QsaRoute::Verify => {
                let mut listed: Vec<Vec<i32>> = Vec::new();
                let mut row: usize = 0;
                while row < sequence
                    invariant
                        row <= sequence == rows == selected@.len() == counts@.len()
                            == scores@.len(),
                        self.wf(),
                        past == past_len,
                        0 <= past_len,
                        past_len + sequence < i32::MAX,
                        ratio == self.compress_ratio,
                        complete_blocks == (past_len + sequence) / ratio as int,
                        forall|r: int|
                            0 <= r < sequence ==> (#[trigger] scores@[r])@.len() == complete_blocks
                                && rankable(scores@[r]@, complete_blocks as int),
                        forall|r: int|
                            0 <= r < sequence ==> #[trigger] counts@[r] == row_count(
                                past,
                                r,
                                ratio as int,
                            ),
                        forall|r: int|
                            0 <= r < sequence ==> #[trigger] counts@[r] > self.block_topk,
                        forall|r: int|
                            0 <= r < sequence && counts@[r] > self.block_topk ==> (
                            #[trigger] selected@[r])@ == row_blocks(
                                scores@[r]@,
                                counts@[r] as int,
                                self.block_topk as nat,
                                complete_blocks as int,
                            ),
                        listed@.len() == row,
                        forall|r: int|
                            0 <= r < row ==> (#[trigger] listed@[r])@ == self.row_tokens(
                                scores@[r]@,
                                past,
                                r,
                            ) + self.row_tail(past, r),
                    decreases sequence - row,
                {
                    assert(scores@[row as int]@.len() == complete_blocks);
                    assert(counts@[row as int] > self.block_topk);
                    let tokens = self.indices_of_row(
                        &selected[row],
                        Ghost(scores@[row as int]@),
                        past_len,
                        sequence,
                        row,
                    );
                    listed.push(tokens);
                    row = row + 1;
                }
                Some(Qwen4QsaPlan::VerifyIndices(listed))
            },
            QsaRoute::Prefill => {
                policy.used_approximate = true;
                let mut indices: Vec<Vec<i32>> = Vec::new();
                let mut valid: Vec<Vec<bool>> = Vec::new();
                let mut row: usize = 0;
                while row < sequence
                    invariant
                        row <= sequence == rows == selected@.len() == counts@.len()
                            == scores@.len(),
                        self.wf(),
                        past == past_len,
                        0 <= past_len,
                        past_len + sequence + self.compress_ratio <= i32::MAX,
                        ratio == self.compress_ratio,
                        complete_blocks == (past_len + sequence) / ratio as int,
                        forall|r: int|
                            0 <= r < sequence ==> (#[trigger] scores@[r])@.len() == complete_blocks
                                && rankable(scores@[r]@, complete_blocks as int),
                        forall|r: int|
                            0 <= r < sequence ==> #[trigger] counts@[r] == row_count(
                                past,
                                r,
                                ratio as int,
                            ),
                        forall|r: int|
                            0 <= r < sequence ==> #[trigger] counts@[r] > self.block_topk,
                        forall|r: int|
                            0 <= r < sequence && counts@[r] > self.block_topk ==> (
                            #[trigger] selected@[r])@ == row_blocks(
                                scores@[r]@,
                                counts@[r] as int,
                                self.block_topk as nat,
                                complete_blocks as int,
                            ),
                        indices@.len() == row,
                        valid@.len() == row,
                        forall|r: int|
                            0 <= r < row ==> (#[trigger] indices@[r])@ == self.row_tokens(
                                scores@[r]@,
                                past,
                                r,
                            ) + self.padded_tail(past, r),
                        forall|r: int|
                            0 <= r < row ==> (#[trigger] valid@[r])@ == self.padded_valid(
                                self.row_tokens(scores@[r]@, past, r).len(),
                                past,
                                r,
                            ),
                    decreases sequence - row,
                {
                    assert(scores@[row as int]@.len() == complete_blocks);
                    assert(counts@[row as int] > self.block_topk);
                    let (row_indices, row_valid) = self.padded_row(
                        &selected[row],
                        Ghost(scores@[row as int]@),
                        past_len,
                        sequence,
                        row,
                    );
                    indices.push(row_indices);
                    valid.push(row_valid);
                    row = row + 1;
                }
                Some(Qwen4QsaPlan::PrefillIndices { indices, valid })
            },
            QsaRoute::Mask => {
                let mut masks: Vec<Vec<bool>> = Vec::new();
                let mut flat: usize = 0;
                while flat < rows
                    invariant
                        flat <= rows == selected@.len() == counts@.len() == scores@.len(),
                        self.wf(),
                        past == past_len,
                        0 <= past_len,
                        sequence > 0,
                        past_len + sequence < i32::MAX,
                        ratio == self.compress_ratio,
                        complete_blocks == (past_len + sequence) / ratio as int,
                        forall|r: int|
                            0 <= r < rows ==> (#[trigger] scores@[r])@.len() == complete_blocks
                                && rankable(scores@[r]@, complete_blocks as int),
                        forall|r: int|
                            0 <= r < rows ==> #[trigger] counts@[r] == row_count(
                                past,
                                Self::row_of(r, sequence as int),
                                ratio as int,
                            ),
                        forall|r: int|
                            0 <= r < rows && counts@[r] > self.block_topk ==> (
                            #[trigger] selected@[r])@ == row_blocks(
                                scores@[r]@,
                                counts@[r] as int,
                                self.block_topk as nat,
                                complete_blocks as int,
                            ),
                        masks@.len() == flat,
                        forall|r: int|
                            0 <= r < flat ==> (#[trigger] masks@[r])@.len() == past + sequence,
                        forall|r: int, token: int|
                            0 <= r < flat && 0 <= token < past + sequence
                                ==> #[trigger] masks@[r]@[token] == self.sees(
                                scores@[r]@,
                                past,
                                Self::row_of(r, sequence as int),
                                token,
                            ),
                    decreases rows - flat,
                {
                    let row: usize = flat % sequence;
                    assert(scores@[flat as int]@.len() == complete_blocks);
                    assert(counts@[flat as int] == row_count(past, row as int, ratio as int));
                    let mask = self.mask_of_row(
                        &selected[flat],
                        Ghost(scores@[flat as int]@),
                        past_len,
                        sequence,
                        row,
                    );
                    masks.push(mask);
                    flat = flat + 1;
                }
                Some(Qwen4QsaPlan::Mask(masks))
            },
        }
    }
}

/// A sparse row's kept tokens all lie in blocks that are complete for it.
pub proof fn kept_tokens_are_complete(
    indexer: Qwen4QsaIndexer,
    scores: Seq<i32>,
    past_len: int,
    sequence: int,
    row: int,
)
    requires
        indexer.wf(),
        0 <= past_len,
        0 <= row < sequence,
        past_len + sequence < i32::MAX,
        scores.len() == (past_len + sequence) / indexer.compress_ratio as int,
        rankable(scores, scores.len() as int),
        row_count(past_len, row, indexer.compress_ratio as int) > indexer.block_topk,
    ensures
        indexer.row_tokens(scores, past_len, row).len() == indexer.block_topk
            * indexer.compress_ratio,
        forall|i: int|
            0 <= i < indexer.row_tokens(scores, past_len, row).len() ==> 0
                <= #[trigger] indexer.row_tokens(scores, past_len, row)[i] < row_count(
                past_len,
                row,
                indexer.compress_ratio as int,
            ) * indexer.compress_ratio,
{
    let ratio = indexer.compress_ratio as int;
    let count = row_count(past_len, row, ratio);
    let k = indexer.block_topk as nat;
    let chosen = row_blocks(scores, count, k, scores.len() as int);
    let order = sorted_descending(chosen).reverse();
    row_geometry(past_len, sequence, row, ratio);
    kept_blocks_are_seen(scores, count, k, scores.len() as int);
    sorting_rearranges(chosen);
    let tokens = indexer.row_tokens(scores, past_len, row);
    assert(tokens == block_tokens(order, ratio));
    assert forall|i: int| 0 <= i < tokens.len() implies 0 <= #[trigger] tokens[i] < count * ratio by {
        vstd::arithmetic::div_mod::lemma_fundamental_div_mod(i, ratio);
        vstd::arithmetic::div_mod::lemma_mod_bound(i, ratio);
        vstd::arithmetic::div_mod::lemma_div_pos_is_pos(i, ratio);
        let at = i / ratio;
        assert(at < k) by (nonlinear_arith)
            requires
                i == ratio * at + i % ratio,
                i % ratio >= 0,
                i < k * ratio,
                ratio > 0,
        ;
        sorted_values_come_from(chosen, k - 1 - at);
        let id = order[at];
        assert(chosen.contains(id));
        let place = chosen.index_of(id);
        assert(chosen[place] == id);
        assert(0 <= id < count);
        mul_le(id as int + 1, count, ratio);
        assert((id + 1) * ratio == id * ratio + ratio) by (nonlinear_arith);
        assert(id * ratio >= 0) by (nonlinear_arith)
            requires
                id >= 0,
                ratio > 0,
        ;
    }
}

/// No row sees a token after itself.
pub proof fn sparse_attention_is_causal(
    indexer: Qwen4QsaIndexer,
    scores: Seq<i32>,
    past_len: int,
    sequence: int,
    row: int,
    token: int,
)
    requires
        indexer.wf(),
        0 <= past_len,
        0 <= row < sequence,
        past_len + sequence < i32::MAX,
        scores.len() == (past_len + sequence) / indexer.compress_ratio as int,
        rankable(scores, scores.len() as int),
        0 <= token <= i32::MAX,
        indexer.sees(scores, past_len, row, token),
    ensures
        token < row_end(past_len, row),
{
    let ratio = indexer.compress_ratio as int;
    row_geometry(past_len, sequence, row, ratio);
    if row_count(past_len, row, ratio) > indexer.block_topk {
        kept_tokens_are_complete(indexer, scores, past_len, sequence, row);
        let tokens = indexer.row_tokens(scores, past_len, row);
        if tokens.contains(token as i32) {
            let at = tokens.index_of(token as i32);
            assert(tokens[at] == token);
        }
    }
}

/// Index lists, padded rows and masks show a sparse row the same tokens.
pub proof fn presentations_agree(
    indexer: Qwen4QsaIndexer,
    scores: Seq<i32>,
    past_len: int,
    sequence: int,
    row: int,
    token: int,
)
    requires
        indexer.wf(),
        0 <= past_len,
        0 <= row < sequence,
        past_len + sequence < i32::MAX,
        scores.len() == (past_len + sequence) / indexer.compress_ratio as int,
        rankable(scores, scores.len() as int),
        row_count(past_len, row, indexer.compress_ratio as int) > indexer.block_topk,
        0 <= token <= i32::MAX,
    ensures
        ({
            let kept = indexer.row_tokens(scores, past_len, row);
            let listed = kept + indexer.row_tail(past_len, row);
            let padded = kept + indexer.padded_tail(past_len, row);
            let valid = indexer.padded_valid(kept.len(), past_len, row);
            &&& listed.contains(token as i32) == indexer.sees(scores, past_len, row, token)
            &&& (exists|i: int|
                0 <= i < padded.len() && #[trigger] padded[i] == token && valid[i])
                == indexer.sees(scores, past_len, row, token)
        }),
{
    let ratio = indexer.compress_ratio as int;
    let count = row_count(past_len, row, ratio);
    let start = count * ratio;
    let end = row_end(past_len, row);
    let kept = indexer.row_tokens(scores, past_len, row);
    let tail = indexer.row_tail(past_len, row);
    let listed = kept + tail;
    let padded = kept + indexer.padded_tail(past_len, row);
    let valid = indexer.padded_valid(kept.len(), past_len, row);
    row_geometry(past_len, sequence, row, ratio);
    kept_tokens_are_complete(indexer, scores, past_len, sequence, row);
    if kept.contains(token as i32) {
        let at = kept.index_of(token as i32);
        assert(listed[at] == token as i32);
        assert(padded[at] == token && valid[at]);
    }
    if start <= token < end {
        let at = kept.len() + (token - start);
        assert(tail[token - start] == token as i32);
        assert(listed[at] == token as i32);
        assert(padded[at] == token && valid[at]);
    }
    if listed.contains(token as i32) {
        let at = listed.index_of(token as i32);
        assert(listed[at] == token as i32);
        if at < kept.len() {
            assert(kept[at] == token as i32);
        } else {
            assert(tail[at - kept.len()] == token as i32);
        }
    }
    if exists|i: int| 0 <= i < padded.len() && #[trigger] padded[i] == token && valid[i] {
        let at = choose|i: int| 0 <= i < padded.len() && #[trigger] padded[i] == token && valid[i];
        if at < kept.len() {
            assert(kept[at] == token as i32);
        } else {
            assert(indexer.padded_tail(past_len, row)[at - kept.len()] == token);
        }
    }
}

} // verus!
