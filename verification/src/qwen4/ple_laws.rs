//! Looking tokens of a batch up chunk by chunk.

use vstd::arithmetic::div_mod::{
    lemma_div_pos_is_pos, lemma_fundamental_div_mod, lemma_mod_bound, lemma_multiply_divide_lt,
};
use vstd::prelude::*;
use crate::qwen4::ple::{
    flat_row, look_back, multiplier, next_histories, next_history, ngram_hash, shifted_entry,
    shifted_row, shifted_rows, shifted_tokens_ignore_chunking, size_sum, Qwen4Ple,
};
use crate::qwen4::primes::mixed;

verus! {

/// The tokens from place `start` up to, excluding, `end` of the first `rows` rows, row by row.
pub open spec fn chunk_of(tokens: Seq<i32>, rows: nat, sequence: int, start: int, end: int) -> Seq<
    i32,
>
    decreases rows,
{
    if rows == 0 {
        Seq::empty()
    } else {
        chunk_of(tokens, (rows - 1) as nat, sequence, start, end) + flat_row(
            tokens,
            rows - 1,
            sequence,
        ).subrange(start, end)
    }
}

/// Tokens per row in all chunks together.
pub open spec fn total_length(lengths: Seq<nat>) -> nat
    decreases lengths.len(),
{
    if lengths.len() == 0 {
        0
    } else {
        total_length(lengths.drop_last()) + lengths.last()
    }
}

/// The last of the chunks of these lengths.
pub open spec fn last_chunk(tokens: Seq<i32>, batch: nat, sequence: nat, lengths: Seq<nat>) -> Seq<
    i32,
> {
    chunk_of(
        tokens,
        batch,
        sequence as int,
        total_length(lengths.drop_last()) as int,
        total_length(lengths) as int,
    )
}

/// The histories after chunks of these lengths, each chunk with the histories that the one before
/// left.
pub open spec fn chunked_histories(
    tokens: Seq<i32>,
    history: Seq<i32>,
    batch: nat,
    sequence: nat,
    lengths: Seq<nat>,
    ngram_size: nat,
) -> Seq<i32>
    decreases lengths.len(),
{
    if lengths.len() == 0 {
        history
    } else {
        next_histories(
            last_chunk(tokens, batch, sequence, lengths),
            chunked_histories(
                tokens,
                history,
                batch,
                sequence,
                lengths.drop_last(),
                ngram_size,
            ),
            batch,
            lengths.last(),
            ngram_size,
        )
    }
}

/// What chunks of these lengths give for one row, joined.
pub open spec fn chunked_row(
    tokens: Seq<i32>,
    history: Seq<i32>,
    batch: nat,
    sequence: nat,
    lengths: Seq<nat>,
    ngram_size: nat,
    eos: i32,
    row: int,
) -> Seq<i32>
    decreases lengths.len(),
{
    if lengths.len() == 0 {
        Seq::empty()
    } else {
        let front = lengths.drop_last();
        chunked_row(tokens, history, batch, sequence, front, ngram_size, eos, row) + flat_row(
            shifted_rows(
                last_chunk(tokens, batch, sequence, lengths),
                chunked_histories(tokens, history, batch, sequence, front, ngram_size),
                batch,
                lengths.last(),
                ngram_size,
                eos,
            ),
            row,
            (lengths.last() * ngram_size) as int,
        )
    }
}

/// The rows of an array with one more row.
proof fn row_of_stack(front: Seq<i32>, last: Seq<i32>, rows: nat, width: nat, row: int)
    requires
        front.len() == rows * width,
        last.len() == width,
        0 <= row <= rows,
    ensures
        (front + last).len() == (rows + 1) * width,
        flat_row(front + last, row, width as int) == if row < rows {
            flat_row(front, row, width as int)
        } else {
            last
        },
{
    assert((rows + 1) * width == rows * width + width) by (nonlinear_arith);
    assert((row + 1) * width == row * width + width) by (nonlinear_arith);
    assert(0 <= row * width) by (nonlinear_arith)
        requires
            row >= 0,
            width >= 0,
    ;
    if row < rows {
        assert((row + 1) * width <= rows * width) by (nonlinear_arith)
            requires
                row + 1 <= rows,
                width >= 0,
        ;
        assert(flat_row(front + last, row, width as int) =~= flat_row(front, row, width as int));
    } else {
        assert(flat_row(front + last, row, width as int) =~= last);
    }
}

/// A row lies inside its array.
proof fn row_fits(values: Seq<i32>, rows: nat, width: nat, row: int)
    requires
        values.len() == rows * width,
        0 <= row < rows,
    ensures
        0 <= row * width <= (row + 1) * width <= values.len(),
        flat_row(values, row, width as int).len() == width,
{
    assert((row + 1) * width == row * width + width) by (nonlinear_arith);
    assert(0 <= row * width && (row + 1) * width <= rows * width) by (nonlinear_arith)
        requires
            0 <= row < rows,
            width >= 0,
    ;
}

/// Arrays with the same rows are the same.
proof fn rows_decide(left: Seq<i32>, right: Seq<i32>, rows: nat, width: nat)
    requires
        left.len() == rows * width,
        right.len() == rows * width,
        forall|row: int|
            0 <= row < rows ==> #[trigger] flat_row(left, row, width as int) == flat_row(
                right,
                row,
                width as int,
            ),
    ensures
        left == right,
{
    assert forall|i: int| 0 <= i < left.len() implies left[i] == right[i] by {
        let w = width as int;
        assert(w > 0) by (nonlinear_arith)
            requires
                0 <= i < rows * w,
                w >= 0,
        ;
        let row = i / w;
        let column = i % w;
        assert(rows * w == w * rows) by (nonlinear_arith);
        lemma_fundamental_div_mod(i, w);
        lemma_mod_bound(i, w);
        lemma_div_pos_is_pos(i, w);
        assert(row < rows) by {
            lemma_multiply_divide_lt(i, w, rows as int);
        }
        assert(w * row == row * w) by (nonlinear_arith);
        row_fits(left, rows, width, row);
        row_fits(right, rows, width, row);
        assert(flat_row(left, row, w) == flat_row(right, row, w));
        assert(flat_row(left, row, w)[column] == left[i]);
        assert(flat_row(right, row, w)[column] == right[i]);
    }
    assert(left =~= right);
}

proof fn row_length(history: Seq<i32>, tokens: Seq<i32>, ngram_size: nat, eos: i32)
    ensures
        shifted_row(history, tokens, ngram_size, eos).len() == tokens.len() * ngram_size,
    decreases tokens.len(),
{
    if tokens.len() == 0 {
        assert(0 * ngram_size == 0) by (nonlinear_arith);
    } else {
        row_length(history, tokens.drop_last(), ngram_size, eos);
        let n = tokens.len() as int;
        assert((n - 1) * ngram_size + ngram_size == n * ngram_size) by (nonlinear_arith);
        assert(shifted_entry(
            history + tokens.drop_last(),
            tokens.last(),
            ngram_size,
            eos,
        ).len() == ngram_size);
    }
}

/// Every row of a chunk is a stretch of the row.
proof fn rows_of_chunk(
    tokens: Seq<i32>,
    rows: nat,
    batch: nat,
    sequence: nat,
    start: int,
    end: int,
    row: int,
)
    requires
        rows <= batch,
        tokens.len() == batch * sequence,
        0 <= start <= end <= sequence,
        0 <= row < rows,
    ensures
        chunk_of(tokens, rows, sequence as int, start, end).len() == rows * (end - start),
        flat_row(chunk_of(tokens, rows, sequence as int, start, end), row, end - start)
            == flat_row(tokens, row, sequence as int).subrange(start, end),
    decreases rows,
{
    let front = chunk_of(tokens, (rows - 1) as nat, sequence as int, start, end);
    let width = (end - start) as nat;
    row_fits(tokens, batch, sequence, rows - 1);
    let last = flat_row(tokens, rows - 1, sequence as int).subrange(start, end);
    if rows == 1 {
        assert(0 * width == 0) by (nonlinear_arith);
        assert(front.len() == 0);
    } else {
        let inner = if row < rows - 1 {
            row
        } else {
            0
        };
        rows_of_chunk(tokens, (rows - 1) as nat, batch, sequence, start, end, inner);
    }
    row_of_stack(front, last, (rows - 1) as nat, width, row);
}

/// Every row is looked up by itself.
proof fn rows_of_shifted(
    tokens: Seq<i32>,
    history: Seq<i32>,
    rows: nat,
    batch: nat,
    sequence: nat,
    ngram_size: nat,
    eos: i32,
    row: int,
)
    requires
        ngram_size >= 1,
        rows <= batch,
        tokens.len() == batch * sequence,
        history.len() == batch * (ngram_size - 1),
        0 <= row < rows,
    ensures
        shifted_rows(tokens, history, rows, sequence, ngram_size, eos).len() == rows * (sequence
            * ngram_size),
        flat_row(
            shifted_rows(tokens, history, rows, sequence, ngram_size, eos),
            row,
            (sequence * ngram_size) as int,
        ) == shifted_row(
            flat_row(history, row, ngram_size - 1),
            flat_row(tokens, row, sequence as int),
            ngram_size,
            eos,
        ),
        next_histories(tokens, history, rows, sequence, ngram_size).len() == rows * (ngram_size
            - 1),
        flat_row(
            next_histories(tokens, history, rows, sequence, ngram_size),
            row,
            ngram_size - 1,
        ) == next_history(
            flat_row(history, row, ngram_size - 1),
            flat_row(tokens, row, sequence as int),
        ),
    decreases rows,
{
    let fewer = (rows - 1) as nat;
    let context = (ngram_size - 1) as nat;
    let width = sequence * ngram_size;
    row_fits(tokens, batch, sequence, rows - 1);
    row_fits(history, batch, context, rows - 1);
    let own_history = flat_row(history, rows - 1, context as int);
    let own_tokens = flat_row(tokens, rows - 1, sequence as int);
    row_length(own_history, own_tokens, ngram_size, eos);
    let front = shifted_rows(tokens, history, fewer, sequence, ngram_size, eos);
    let left = next_histories(tokens, history, fewer, sequence, ngram_size);
    if rows == 1 {
        assert(0 * width == 0 && 0 * context == 0) by (nonlinear_arith);
        assert(front.len() == 0 && left.len() == 0);
    } else {
        let inner = if row < rows - 1 {
            row
        } else {
            0
        };
        rows_of_shifted(tokens, history, fewer, batch, sequence, ngram_size, eos, inner);
    }
    row_of_stack(front, shifted_row(own_history, own_tokens, ngram_size, eos), fewer, width, row);
    row_of_stack(left, next_history(own_history, own_tokens), fewer, context, row);
}

/// The histories of a batch have their length.
proof fn histories_length(
    tokens: Seq<i32>,
    history: Seq<i32>,
    batch: nat,
    sequence: nat,
    lengths: Seq<nat>,
    ngram_size: nat,
)
    requires
        ngram_size >= 1,
        tokens.len() == batch * sequence,
        history.len() == batch * (ngram_size - 1),
        total_length(lengths) <= sequence,
    ensures
        chunked_histories(tokens, history, batch, sequence, lengths, ngram_size).len() == batch * (
        ngram_size - 1),
    decreases lengths.len(),
{
    if lengths.len() > 0 {
        let front = lengths.drop_last();
        histories_length(tokens, history, batch, sequence, front, ngram_size);
        if batch > 0 {
            let start = total_length(front) as int;
            let end = total_length(lengths) as int;
            rows_of_chunk(tokens, batch, batch, sequence, start, end, 0);
            rows_of_shifted(
                last_chunk(tokens, batch, sequence, lengths),
                chunked_histories(tokens, history, batch, sequence, front, ngram_size),
                batch,
                batch,
                lengths.last(),
                ngram_size,
                0,
                0,
            );
        } else {
            assert(0 * (ngram_size - 1) == 0) by (nonlinear_arith);
        }
    }
}

/// After some chunks, a row has what looking its tokens up at once gives.
proof fn chunked_row_is_whole(
    tokens: Seq<i32>,
    history: Seq<i32>,
    batch: nat,
    sequence: nat,
    lengths: Seq<nat>,
    ngram_size: nat,
    eos: i32,
    row: int,
)
    requires
        ngram_size >= 1,
        tokens.len() == batch * sequence,
        history.len() == batch * (ngram_size - 1),
        total_length(lengths) <= sequence,
        0 <= row < batch,
    ensures
        ({
            let seen = flat_row(tokens, row, sequence as int).take(total_length(lengths) as int);
            let own = flat_row(history, row, ngram_size - 1);
            &&& chunked_row(tokens, history, batch, sequence, lengths, ngram_size, eos, row)
                == shifted_row(own, seen, ngram_size, eos)
            &&& flat_row(
                chunked_histories(tokens, history, batch, sequence, lengths, ngram_size),
                row,
                ngram_size - 1,
            ) == next_history(own, seen)
        }),
    decreases lengths.len(),
{
    let all = flat_row(tokens, row, sequence as int);
    let own = flat_row(history, row, ngram_size - 1);
    row_fits(tokens, batch, sequence, row);
    row_fits(history, batch, (ngram_size - 1) as nat, row);
    if lengths.len() == 0 {
        assert(all.take(0) =~= Seq::<i32>::empty());
        assert(next_history(own, all.take(0)) =~= own);
    } else {
        let front = lengths.drop_last();
        let start = total_length(front) as int;
        let end = total_length(lengths) as int;
        chunked_row_is_whole(tokens, history, batch, sequence, front, ngram_size, eos, row);
        histories_length(tokens, history, batch, sequence, front, ngram_size);
        rows_of_chunk(tokens, batch, batch, sequence, start, end, row);
        let carried = chunked_histories(tokens, history, batch, sequence, front, ngram_size);
        rows_of_shifted(
            last_chunk(tokens, batch, sequence, lengths),
            carried,
            batch,
            batch,
            lengths.last(),
            ngram_size,
            eos,
            row,
        );
        shifted_tokens_ignore_chunking(
            own,
            all.take(start),
            all.subrange(start, end),
            ngram_size,
            eos,
        );
        assert(all.take(start) + all.subrange(start, end) =~= all.take(end));
    }
}

/// However the sequences of a batch are cut into chunks, looking them up chunk by chunk, with the
/// histories carried over, gives for every row the entries of one look-up of everything, and
/// leaves the same histories.
pub proof fn batches_ignore_chunking(
    tokens: Seq<i32>,
    history: Seq<i32>,
    batch: nat,
    sequence: nat,
    lengths: Seq<nat>,
    ngram_size: nat,
    eos: i32,
)
    requires
        ngram_size >= 1,
        tokens.len() == batch * sequence,
        history.len() == batch * (ngram_size - 1),
        total_length(lengths) == sequence,
    ensures
        forall|row: int|
            0 <= row < batch ==> #[trigger] chunked_row(
                tokens,
                history,
                batch,
                sequence,
                lengths,
                ngram_size,
                eos,
                row,
            ) == flat_row(
                shifted_rows(tokens, history, batch, sequence, ngram_size, eos),
                row,
                (sequence * ngram_size) as int,
            ),
        chunked_histories(tokens, history, batch, sequence, lengths, ngram_size) == next_histories(
            tokens,
            history,
            batch,
            sequence,
            ngram_size,
        ),
{
    let context = (ngram_size - 1) as nat;
    let carried = chunked_histories(tokens, history, batch, sequence, lengths, ngram_size);
    let whole = next_histories(tokens, history, batch, sequence, ngram_size);
    histories_length(tokens, history, batch, sequence, lengths, ngram_size);
    if batch == 0 {
        assert(0 * context == 0) by (nonlinear_arith);
    } else {
        rows_of_shifted(tokens, history, batch, batch, sequence, ngram_size, eos, 0);
    }
    assert forall|row: int| 0 <= row < batch implies #[trigger] chunked_row(
        tokens,
        history,
        batch,
        sequence,
        lengths,
        ngram_size,
        eos,
        row,
    ) == flat_row(
        shifted_rows(tokens, history, batch, sequence, ngram_size, eos),
        row,
        (sequence * ngram_size) as int,
    ) by {
        same_row(tokens, history, batch, sequence, lengths, ngram_size, eos, row);
    }
    assert forall|row: int| 0 <= row < batch implies #[trigger] flat_row(
        carried,
        row,
        context as int,
    ) == flat_row(whole, row, context as int) by {
        same_row(tokens, history, batch, sequence, lengths, ngram_size, eos, row);
    }
    rows_decide(carried, whole, batch, context);
}

proof fn same_row(
    tokens: Seq<i32>,
    history: Seq<i32>,
    batch: nat,
    sequence: nat,
    lengths: Seq<nat>,
    ngram_size: nat,
    eos: i32,
    row: int,
)
    requires
        ngram_size >= 1,
        tokens.len() == batch * sequence,
        history.len() == batch * (ngram_size - 1),
        total_length(lengths) == sequence,
        0 <= row < batch,
    ensures
        chunked_row(tokens, history, batch, sequence, lengths, ngram_size, eos, row) == flat_row(
            shifted_rows(tokens, history, batch, sequence, ngram_size, eos),
            row,
            (sequence * ngram_size) as int,
        ),
        flat_row(
            chunked_histories(tokens, history, batch, sequence, lengths, ngram_size),
            row,
            ngram_size - 1,
        ) == flat_row(
            next_histories(tokens, history, batch, sequence, ngram_size),
            row,
            ngram_size - 1,
        ),
{
    row_fits(tokens, batch, sequence, row);
    chunked_row_is_whole(tokens, history, batch, sequence, lengths, ngram_size, eos, row);
    rows_of_shifted(tokens, history, batch, batch, sequence, ngram_size, eos, row);
    let all = flat_row(tokens, row, sequence as int);
    assert(all.take(sequence as int) =~= all);
}

/// What one place adds to a hash.
pub open spec fn place_product(entry: Seq<i32>, multipliers: Seq<u64>, place: int) -> u64 {
    (entry[place] as u64).wrapping_mul(multipliers[place])
}

/// The hash of two places, and of the usual three, written out: every place has its own multiplier.
pub proof fn hashes_written_out(entry: Seq<i32>, multipliers: Seq<u64>)
    requires
        entry.len() >= 3,
        multipliers.len() >= 3,
    ensures
        ngram_hash(entry, multipliers, 2) == (entry[0] as u64).wrapping_mul(multipliers[0]) ^ (
        entry[1] as u64).wrapping_mul(multipliers[1]),
        ngram_hash(entry, multipliers, 3) == (entry[0] as u64).wrapping_mul(multipliers[0]) ^ (
        entry[1] as u64).wrapping_mul(multipliers[1]) ^ (entry[2] as u64).wrapping_mul(
            multipliers[2],
        ),
{
    reveal_with_fuel(ngram_hash, 3);
}

/// One more place changes a hash by the product of that place with its own multiplier.
pub proof fn hashes_grow_by_a_place(entry: Seq<i32>, multipliers: Seq<u64>, length: nat)
    requires
        1 <= length < entry.len(),
        length < multipliers.len(),
    ensures
        ngram_hash(entry, multipliers, length + 1) == ngram_hash(entry, multipliers, length) ^ (
        entry[length as int] as u64).wrapping_mul(multipliers[length as int]),
        ngram_hash(entry, multipliers, 1) == (entry[0] as u64).wrapping_mul(multipliers[0]),
{
}

/// Two entries that differ in one place have hashes that differ by the two products of that place,
/// if the hash reaches it, and the same hash if it does not.
pub proof fn hashes_differ_by_the_place(
    left: Seq<i32>,
    right: Seq<i32>,
    multipliers: Seq<u64>,
    length: nat,
    place: int,
)
    requires
        1 <= length <= left.len(),
        left.len() == right.len(),
        length <= multipliers.len(),
        0 <= place < left.len(),
        forall|i: int| 0 <= i < left.len() && i != place ==> left[i] == right[i],
    ensures
        place < length ==> ngram_hash(left, multipliers, length) ^ ngram_hash(
            right,
            multipliers,
            length,
        ) == (left[place] as u64).wrapping_mul(multipliers[place]) ^ (
        right[place] as u64).wrapping_mul(multipliers[place]),
        place >= length ==> ngram_hash(left, multipliers, length) == ngram_hash(
            right,
            multipliers,
            length,
        ),
    decreases length,
{
    if length > 1 {
        hashes_differ_by_the_place(left, right, multipliers, (length - 1) as nat, place);
        let at = length - 1;
        let a = ngram_hash(left, multipliers, (length - 1) as nat);
        let b = ngram_hash(right, multipliers, (length - 1) as nat);
        let x = place_product(left, multipliers, at);
        let y = place_product(right, multipliers, at);
        if place == at {
            assert((a ^ x) ^ (b ^ y) == x ^ y) by (bit_vector)
                requires
                    a == b,
            ;
        } else if place < at {
            assert((a ^ x) ^ (b ^ y) == a ^ b) by (bit_vector)
                requires
                    x == y,
            ;
        }
    }
}

/// Looking back: one place back is the last token of the context. One place further back in a longer
/// context is what it was before the last token came, unless that token ended the sequence, behind
/// which everything is the end.
pub proof fn look_backs_shift(context: Seq<i32>, token: i32, distance: int, eos: i32)
    requires
        1 <= distance <= context.len(),
    ensures
        look_back(context.push(token), 1, eos) == token,
        token == eos ==> look_back(context.push(token), distance + 1, eos) == eos,
        token != eos ==> look_back(context.push(token), distance + 1, eos) == look_back(
            context,
            distance,
            eos,
        ),
{
    let longer = context.push(token);
    assert(longer.skip(longer.len() as int).len() == 0);
    let near = context.skip(context.len() - distance + 1);
    let wide = longer.skip(longer.len() - distance);
    assert(wide =~= near.push(token));
    assert(wide[wide.len() - 1] == token);
    if near.contains(eos) {
        let at = near.index_of(eos);
        assert(wide[at] == eos);
    }
    if wide.contains(eos) && token != eos {
        let at = wide.index_of(eos);
        assert(near[at] == eos);
    }
}

/// Looking back over tokens none of which ends the sequence gives the token at that distance.
pub proof fn look_backs_are_plain_without_end(context: Seq<i32>, distance: int, eos: i32)
    requires
        1 <= distance <= context.len(),
        forall|i: int| context.len() - distance < i < context.len() ==> context[i] != eos,
    ensures
        look_back(context, distance, eos) == context[context.len() - distance],
{
    let near = context.skip(context.len() - distance + 1);
    if near.contains(eos) {
        let at = near.index_of(eos);
        assert(context[context.len() - distance + 1 + at] == eos);
    }
}

/// The entries of a row, one after another: the token itself, then the tokens before it.
proof fn entries_of_row(
    history: Seq<i32>,
    tokens: Seq<i32>,
    ngram_size: nat,
    eos: i32,
    at: int,
    distance: int,
)
    requires
        0 <= at < tokens.len(),
        0 <= distance < ngram_size,
    ensures
        0 <= at * ngram_size + distance < shifted_row(history, tokens, ngram_size, eos).len(),
        shifted_row(history, tokens, ngram_size, eos)[at * ngram_size + distance] == if distance
            == 0 {
            tokens[at]
        } else {
            look_back(history + tokens.take(at), distance, eos)
        },
    decreases tokens.len(),
{
    let front = tokens.drop_last();
    let n = tokens.len() as int;
    row_length(history, tokens, ngram_size, eos);
    row_length(history, front, ngram_size, eos);
    assert((n - 1) * ngram_size + ngram_size == n * ngram_size) by (nonlinear_arith);
    assert(0 <= at * ngram_size) by (nonlinear_arith)
        requires
            at >= 0,
            ngram_size >= 0,
    ;
    assert(at * ngram_size + ngram_size <= n * ngram_size) by (nonlinear_arith)
        requires
            at + 1 <= n,
            ngram_size >= 0,
    ;
    if at < n - 1 {
        assert(at * ngram_size + ngram_size <= (n - 1) * ngram_size) by (nonlinear_arith)
            requires
                at + 1 <= n - 1,
                ngram_size >= 0,
        ;
        entries_of_row(history, front, ngram_size, eos, at, distance);
        assert(front.take(at) =~= tokens.take(at));
    } else {
        assert(front =~= tokens.take(at));
    }
}

/// What is looked up for a token of a batch: the token itself, then the tokens of the same row
/// before it, the row's history included.
pub proof fn entries_hold_tokens_and_look_backs(
    tokens: Seq<i32>,
    history: Seq<i32>,
    batch: nat,
    sequence: nat,
    ngram_size: nat,
    eos: i32,
    row: int,
    at: int,
    distance: int,
)
    requires
        ngram_size >= 1,
        tokens.len() == batch * sequence,
        history.len() == batch * (ngram_size - 1),
        0 <= row < batch,
        0 <= at < sequence,
        0 <= distance < ngram_size,
    ensures
        ({
            let shifted = shifted_rows(tokens, history, batch, sequence, ngram_size, eos);
            let context = history.subrange(
                row * (ngram_size - 1),
                row * (ngram_size - 1) + (ngram_size - 1),
            ) + tokens.subrange(row * sequence, row * sequence + at);
            let place = (row * sequence + at) * ngram_size + distance;
            &&& 0 <= place < shifted.len()
            &&& context.len() == ngram_size - 1 + at
            &&& shifted[place] == if distance == 0 {
                tokens[row * sequence + at]
            } else {
                look_back(context, distance, eos)
            }
        }),
{
    let context_len = (ngram_size - 1) as nat;
    let width = sequence * ngram_size;
    row_fits(tokens, batch, sequence, row);
    row_fits(history, batch, context_len, row);
    rows_of_shifted(tokens, history, batch, batch, sequence, ngram_size, eos, row);
    let shifted = shifted_rows(tokens, history, batch, sequence, ngram_size, eos);
    row_fits(shifted, batch, width, row);
    let own_history = flat_row(history, row, context_len as int);
    let own_tokens = flat_row(tokens, row, sequence as int);
    entries_of_row(own_history, own_tokens, ngram_size, eos, at, distance);
    row_length(own_history, own_tokens, ngram_size, eos);
    assert((row * sequence + at) * ngram_size + distance == row * width + (at * ngram_size
        + distance)) by (nonlinear_arith)
        requires
            width == sequence * ngram_size,
    ;
    assert((row + 1) * sequence == row * sequence + sequence) by (nonlinear_arith);
    assert((row + 1) * context_len == row * context_len + context_len) by (nonlinear_arith);
    assert(own_tokens.take(at) =~= tokens.subrange(row * sequence, row * sequence + at));
    assert(flat_row(shifted, row, width as int)[at * ngram_size + distance] == shifted[row * width + (
    at * ngram_size + distance)]);
}

/// Rows come token by token and head by head: a head adds its offset to the hash of as many places
/// as it has, reduced to the size of its own table. The first heads have two places, the next ones
/// three, and so on.
pub proof fn rows_come_head_by_head(
    ple: Qwen4Ple,
    shifted: Seq<i32>,
    count: nat,
    token: int,
    head: int,
)
    requires
        ple.wf(),
        shifted.len() == count * ple.ngram_size,
        0 <= token < count,
        0 <= head < (ple.ngram_size - 1) * ple.heads_per_ngram,
    ensures
        ({
            let heads = (ple.ngram_size - 1) * ple.heads_per_ngram;
            let entry = shifted.subrange(
                token * ple.ngram_size,
                token * ple.ngram_size + ple.ngram_size,
            );
            let hash = ngram_hash(
                entry,
                ple.multipliers@,
                (head / ple.heads_per_ngram as int + 2) as nat,
            );
            let rows = ple.table_rows(shifted, count);
            &&& rows.len() == count * heads
            &&& 0 <= token * heads + head < rows.len()
            &&& 2 <= head / ple.heads_per_ngram as int + 2 <= ple.ngram_size
            &&& rows[token * heads + head] == ple.head_offsets@[head] + hash as int
                % ple.head_sizes@[head] as int
        }),
    decreases count,
{
    let heads = ple.heads() as int;
    let per = ple.heads_per_ngram as int;
    let size = ple.ngram_size as int;
    let last = count - 1;
    let fewer = (count - 1) as nat;
    assert(per > 0) by (nonlinear_arith)
        requires
            0 <= head < (size - 1) * per,
            size >= 2,
            per >= 0,
    ;
    rows_length(ple, shifted, count);
    rows_length(ple, shifted, fewer);
    assert(last * heads + heads == count * heads) by (nonlinear_arith)
        requires
            last == count - 1,
    ;
    assert(0 <= token * heads && token * heads + heads <= count * heads) by (nonlinear_arith)
        requires
            0 <= token < count,
            heads >= 0,
    ;
    assert((token + 1) * size == token * size + size) by (nonlinear_arith);
    lemma_div_pos_is_pos(head, per);
    assert((size - 1) * per == per * (size - 1)) by (nonlinear_arith);
    lemma_multiply_divide_lt(head, per, size - 1);
    if token < last {
        assert(token * heads + heads <= last * heads) by (nonlinear_arith)
            requires
                token + 1 <= last,
                heads >= 0,
        ;
        let shorter = shifted.take(fewer * size);
        assert(last * size + size == count * size) by (nonlinear_arith)
            requires
                last == count - 1,
        ;
        assert(0 <= fewer * size) by (nonlinear_arith)
            requires
                size >= 0,
        ;
        rows_ignore_later(ple, shifted, shorter, fewer);
        rows_come_head_by_head(ple, shorter, fewer, token, head);
        assert(0 <= token * size && token * size + size <= fewer * size) by (nonlinear_arith)
            requires
                0 <= token,
                token + 1 <= fewer,
                size >= 0,
        ;
        assert(shorter.subrange(token * size, token * size + size) =~= shifted.subrange(
            token * size,
            token * size + size,
        ));
    } else {
        ple.heads_stay_in_tables(flat_row(shifted, last, size), head);
    }
}

proof fn rows_length(ple: Qwen4Ple, shifted: Seq<i32>, count: nat)
    ensures
        ple.table_rows(shifted, count).len() == count * ple.heads(),
    decreases count,
{
    let heads = ple.heads();
    if count == 0 {
        assert(0 * heads == 0) by (nonlinear_arith);
    } else {
        rows_length(ple, shifted, (count - 1) as nat);
        assert((count - 1) * heads + heads == count * heads) by (nonlinear_arith);
    }
}

proof fn rows_ignore_later(ple: Qwen4Ple, longer: Seq<i32>, shorter: Seq<i32>, count: nat)
    requires
        ple.ngram_size >= 1,
        shorter.len() <= longer.len(),
        count * ple.ngram_size <= shorter.len(),
        shorter == longer.take(shorter.len() as int),
    ensures
        ple.table_rows(longer, count) == ple.table_rows(shorter, count),
    decreases count,
{
    if count > 0 {
        let size = ple.ngram_size as int;
        let last = count - 1;
        assert(last * size + size == count * size && (last + 1) * size == count * size && 0 <= last
            * size) by (nonlinear_arith)
            requires
                last == count - 1,
                count > 0,
                size >= 0,
        ;
        rows_ignore_later(ple, longer, shorter, (count - 1) as nat);
        assert(flat_row(longer, last, size) =~= flat_row(shorter, last, size));
    }
}

/// Multipliers are drawn from one generator: the first from the state one step after the seed, and
/// every further one as the first of a seed that is one step further.
pub proof fn multipliers_are_drawn_in_turn(seed: u64, vocab_size: nat, index: nat)
    requires
        0 < vocab_size,
        2 * vocab_size <= i64::MAX,
        index < u64::MAX - 1,
    ensures
        ({
            let step = 0x9E37_79B9_7F4A_7C15u64;
            let bound = (0x7fff_ffff_ffff_ffffnat / vocab_size) / 2;
            &&& multiplier(seed, vocab_size, 0) == 2 * (mixed(seed.wrapping_add(step)) as nat
                % bound) + 1
            &&& multiplier(seed, vocab_size, index + 1) == multiplier(
                seed.wrapping_add(step),
                vocab_size,
                index,
            )
        }),
{
    let step = 0x9E37_79B9_7F4A_7C15u64;
    let quotient = 0x7fff_ffff_ffff_ffffnat / vocab_size;
    lemma_fundamental_div_mod(0x7fff_ffff_ffff_ffff, vocab_size as int);
    lemma_mod_bound(0x7fff_ffff_ffff_ffff, vocab_size as int);
    assert(2 <= quotient <= 0x7fff_ffff_ffff_ffff) by (nonlinear_arith)
        requires
            0x7fff_ffff_ffff_ffff == vocab_size * quotient + 0x7fff_ffff_ffff_ffffint
                % vocab_size as int,
            0 <= 0x7fff_ffff_ffff_ffffint % (vocab_size as int) < vocab_size,
            2 * vocab_size <= 0x7fff_ffff_ffff_ffff,
            vocab_size > 0,
    ;
    let bound = quotient / 2;
    lemma_mod_bound(mixed(seed.wrapping_add(step)) as int, bound as int);
    steps_add_up(seed, step, index);
    assert(step.wrapping_mul(1) == step);
    assert((0nat + 1) as u64 == 1);
}

proof fn steps_add_up(seed: u64, step: u64, index: nat)
    requires
        index < u64::MAX - 1,
    ensures
        seed.wrapping_add(step.wrapping_mul((index + 2) as u64)) == seed.wrapping_add(
            step,
        ).wrapping_add(step.wrapping_mul((index + 1) as u64)),
{
    let modulus = 0x1_0000_0000_0000_0000int;
    let a = (index + 1) as int;
    let product = step * a;
    assert(step * (a + 1) == product + step) by (nonlinear_arith)
        requires
            product == step * a,
    ;
    assert(step.wrapping_mul((index + 1) as u64) == product % modulus);
    assert(step.wrapping_mul((index + 2) as u64) == (product + step) % modulus);
}

/// The tables of the heads stand back to back from the start of the big table.
pub proof fn tables_stand_back_to_back(ple: Qwen4Ple, head: int)
    requires
        ple.wf(),
        0 <= head < (ple.ngram_size - 1) * ple.heads_per_ngram,
    ensures
        head == 0 ==> ple.head_offsets@[0] == 0,
        head > 0 ==> ple.head_offsets@[head] == ple.head_offsets@[head - 1] + ple.head_sizes@[head
            - 1],
{
    assert(ple.head_offsets@[head] == size_sum(ple.head_sizes@, head as nat));
    if head > 0 {
        assert(ple.head_offsets@[head - 1] == size_sum(ple.head_sizes@, (head - 1) as nat));
    }
}

/// The history that a row leaves is its last tokens, those of the old history included where the row
/// is short.
pub proof fn histories_are_the_last_tokens(history: Seq<i32>, tokens: Seq<i32>, i: int)
    requires
        0 <= i < history.len(),
    ensures
        next_history(history, tokens).len() == history.len(),
        next_history(history, tokens)[i] == if i + tokens.len() < history.len() {
            history[i + tokens.len()]
        } else {
            tokens[i + tokens.len() - history.len()]
        },
{
}

} // verus!
