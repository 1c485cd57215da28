//! Hashed n-gram embeddings: which table rows a token reads.
//!
//! For every token the preceding tokens are looked up in a short history, but never past an
//! end-of-sequence token. Each n-gram length has its own hash; each hash is reduced modulo several
//! prime table sizes, one per head. The heads' tables stand one after another in one big table.

use vstd::prelude::*;
use vstd::slice::slice_subrange;
use crate::qwen4::primes::{
    find_nth_prime_after,
    is_nth_prime_after,
    mixed,
    primes_up_to,
    splitmix64,
    SPLITMIX_GAMMA,
};
use crate::tokens::append_tokens;

verus! {

/// The token `distance` places before the end of `context`, or the end-of-sequence token when one
/// lies in between.
pub open spec fn look_back(context: Seq<i32>, distance: int, eos: i32) -> i32 {
    if context.skip(context.len() - distance + 1).contains(eos) {
        eos
    } else {
        context[context.len() - distance]
    }
}

/// A token followed by the tokens before it, the nearest first.
pub open spec fn shifted_entry(context: Seq<i32>, token: i32, ngram_size: nat, eos: i32) -> Seq<
    i32,
> {
    Seq::new(
        ngram_size,
        |d: int|
            if d == 0 {
                token
            } else {
                look_back(context, d, eos)
            },
    )
}

/// The entries of one row of tokens after `history`.
pub open spec fn shifted_row(history: Seq<i32>, tokens: Seq<i32>, ngram_size: nat, eos: i32) -> Seq<
    i32,
>
    decreases tokens.len(),
{
    if tokens.len() == 0 {
        Seq::empty()
    } else {
        shifted_row(history, tokens.drop_last(), ngram_size, eos) + shifted_entry(
            history + tokens.drop_last(),
            tokens.last(),
            ngram_size,
            eos,
        )
    }
}

/// The history that a row leaves: its last tokens.
pub open spec fn next_history(history: Seq<i32>, tokens: Seq<i32>) -> Seq<i32> {
    (history + tokens).skip(tokens.len() as int)
}

/// Row `row` of a flat array of rows of `width` elements.
pub open spec fn flat_row(values: Seq<i32>, row: int, width: int) -> Seq<i32> {
    values.subrange(row * width, (row + 1) * width)
}

/// The entries of the first `rows` rows.
pub open spec fn shifted_rows(
    tokens: Seq<i32>,
    history: Seq<i32>,
    rows: nat,
    sequence: nat,
    ngram_size: nat,
    eos: i32,
) -> Seq<i32>
    decreases rows,
{
    if rows == 0 {
        Seq::empty()
    } else {
        shifted_rows(tokens, history, (rows - 1) as nat, sequence, ngram_size, eos) + shifted_row(
            flat_row(history, rows - 1, ngram_size - 1),
            flat_row(tokens, rows - 1, sequence as int),
            ngram_size,
            eos,
        )
    }
}

/// The histories that the first `rows` rows leave.
pub open spec fn next_histories(
    tokens: Seq<i32>,
    history: Seq<i32>,
    rows: nat,
    sequence: nat,
    ngram_size: nat,
) -> Seq<i32>
    decreases rows,
{
    if rows == 0 {
        Seq::empty()
    } else {
        next_histories(tokens, history, (rows - 1) as nat, sequence, ngram_size) + next_history(
            flat_row(history, rows - 1, ngram_size - 1),
            flat_row(tokens, rows - 1, sequence as int),
        )
    }
}

proof fn look_back_ignores_older(older: Seq<i32>, context: Seq<i32>, distance: int, eos: i32)
    requires
        1 <= distance <= context.len(),
    ensures
        look_back(older + context, distance, eos) == look_back(context, distance, eos),
{
    let whole = older + context;
    assert(whole.skip(whole.len() - distance + 1) == context.skip(context.len() - distance + 1));
}

proof fn entry_ignores_older(
    older: Seq<i32>,
    context: Seq<i32>,
    token: i32,
    ngram_size: nat,
    eos: i32,
)
    requires
        context.len() + 1 >= ngram_size,
    ensures
        shifted_entry(older + context, token, ngram_size, eos) == shifted_entry(
            context,
            token,
            ngram_size,
            eos,
        ),
{
    assert forall|d: int| 1 <= d < ngram_size implies look_back(older + context, d, eos)
        == look_back(context, d, eos) by {
        look_back_ignores_older(older, context, d, eos);
    }
    assert(shifted_entry(older + context, token, ngram_size, eos) =~= shifted_entry(
        context,
        token,
        ngram_size,
        eos,
    ));
}

/// Looking tokens up chunk by chunk, with the history carried over, gives the same entries and
/// leaves the same history as looking them up at once.
pub proof fn shifted_tokens_ignore_chunking(
    history: Seq<i32>,
    first: Seq<i32>,
    second: Seq<i32>,
    ngram_size: nat,
    eos: i32,
)
    requires
        ngram_size >= 1,
        history.len() == ngram_size - 1,
    ensures
        shifted_row(history, first, ngram_size, eos) + shifted_row(
            next_history(history, first),
            second,
            ngram_size,
            eos,
        ) == shifted_row(history, first + second, ngram_size, eos),
        next_history(next_history(history, first), second) == next_history(
            history,
            first + second,
        ),
    decreases second.len(),
{
    let carried = next_history(history, first);
    assert(next_history(carried, second) =~= next_history(history, first + second));
    if second.len() == 0 {
        assert(first + second == first);
        assert(shifted_row(history, first, ngram_size, eos) + Seq::<i32>::empty() == shifted_row(
            history,
            first,
            ngram_size,
            eos,
        ));
    } else {
        let shorter = second.drop_last();
        let token = second.last();
        shifted_tokens_ignore_chunking(history, first, shorter, ngram_size, eos);
        assert((first + second).drop_last() == first + shorter);
        let whole = history + (first + shorter);
        let recent = carried + shorter;
        let older = (history + first).take(first.len() as int);
        assert(whole =~= older + recent);
        entry_ignores_older(older, recent, token, ngram_size, eos);
        let entry = shifted_entry(whole, token, ngram_size, eos);
        assert(shifted_row(history, first, ngram_size, eos) + (shifted_row(
            carried,
            shorter,
            ngram_size,
            eos,
        ) + entry) == (shifted_row(history, first, ngram_size, eos) + shifted_row(
            carried,
            shorter,
            ngram_size,
            eos,
        )) + entry);
    }
}

/// No entry reaches past an end-of-sequence token: once a look-back meets one, every farther one
/// yields it too.
pub proof fn look_back_stops_at_eos(context: Seq<i32>, near: int, far: int, eos: i32)
    requires
        1 <= near < far <= context.len(),
        look_back(context, near, eos) == eos,
    ensures
        look_back(context, far, eos) == eos,
{
    let close = context.skip(context.len() - near + 1);
    let wide = context.skip(context.len() - far + 1);
    if close.contains(eos) {
        let at = close.index_of(eos);
        assert(wide[at + (far - near)] == eos);
    } else {
        assert(wide[far - 1 - near] == context[context.len() - near]);
    }
}

fn push_look_backs(shifted: &mut Vec<i32>, history: &Vec<i32>, ngram_size: usize, eos: i32)
    requires
        ngram_size >= 1,
        history@.len() == ngram_size - 1,
    ensures
        final(shifted)@.len() == old(shifted)@.len() + ngram_size - 1,
        final(shifted)@.take(old(shifted)@.len() as int) == old(shifted)@,
        forall|d: int|
            1 <= d < ngram_size ==> #[trigger] final(shifted)@[old(shifted)@.len() + d - 1]
                == look_back(history@, d, eos),
{
    let ghost before = shifted@;
    let context_len: usize = history.len();
    let mut crossed = false;
    let mut distance: usize = 1;
    assert(history@.skip(history@.len() as int).contains(eos) == false);
    while distance < ngram_size
        invariant
            1 <= distance <= ngram_size,
            context_len == ngram_size - 1,
            history@.len() == context_len,
            before == old(shifted)@,
            shifted@.len() == before.len() + distance - 1,
            shifted@.take(before.len() as int) == before,
            crossed == history@.skip(context_len - distance + 1).contains(eos),
            forall|d: int|
                1 <= d < distance ==> #[trigger] shifted@[before.len() + d - 1] == look_back(
                    history@,
                    d,
                    eos,
                ),
        decreases ngram_size - distance,
    {
        let candidate: i32 = history[context_len - distance];
        let ghost earlier = shifted@;
        shifted.push(
            if crossed {
                eos
            } else {
                candidate
            },
        );
        proof {
            let seen = history@.skip(context_len - distance + 1);
            let more = history@.skip(context_len - distance);
            assert(more == seq![candidate] + seen);
            if seen.contains(eos) {
                let at = seen.index_of(eos);
                assert(more[at + 1] == eos);
            }
            if candidate == eos {
                assert(more[0] == eos);
            }
            if more.contains(eos) {
                let at = more.index_of(eos);
                if at > 0 {
                    assert(seen[at - 1] == eos);
                }
            }
            assert(shifted@.take(before.len() as int) == before);
            assert forall|d: int| 1 <= d < distance + 1 implies #[trigger] shifted@[before.len() + d
                - 1] == look_back(history@, d, eos) by {
                if d < distance {
                    assert(earlier[before.len() + d - 1] == look_back(history@, d, eos));
                }
            }
        }
        crossed = crossed || candidate == eos;
        distance = distance + 1;
    }
}

/// Lists, for every token of every row, the token and the tokens before it, and the histories that
/// the rows leave.
pub fn ple_shifted_tokens(
    tokens: &[i32],
    history: &[i32],
    batch: usize,
    sequence: usize,
    ngram_size: usize,
    eos_token_id: i32,
) -> (result: (Vec<i32>, Vec<i32>))
    requires
        ngram_size >= 2,
        tokens@.len() == batch * sequence,
        history@.len() == batch * (ngram_size - 1),
    ensures
        result.0@ == shifted_rows(
            tokens@,
            history@,
            batch as nat,
            sequence as nat,
            ngram_size as nat,
            eos_token_id,
        ),
        result.1@ == next_histories(
            tokens@,
            history@,
            batch as nat,
            sequence as nat,
            ngram_size as nat,
        ),
{
    let context_len: usize = ngram_size - 1;
    let token_count: usize = tokens.len();
    let history_count: usize = history.len();
    let mut shifted: Vec<i32> = Vec::new();
    let mut next: Vec<i32> = Vec::new();
    let mut row: usize = 0;
    while row < batch
        invariant
            row <= batch,
            ngram_size >= 2,
            context_len == ngram_size - 1,
            token_count == tokens@.len() == batch * sequence,
            history_count == history@.len() == batch * context_len,
            shifted@ == shifted_rows(
                tokens@,
                history@,
                row as nat,
                sequence as nat,
                ngram_size as nat,
                eos_token_id,
            ),
            next@ == next_histories(
                tokens@,
                history@,
                row as nat,
                sequence as nat,
                ngram_size as nat,
            ),
        decreases batch - row,
    {
        proof {
            assert((row + 1) * sequence <= batch * sequence) by (nonlinear_arith)
                requires
                    row + 1 <= batch,
                    sequence >= 0,
            ;
            assert((row + 1) * context_len <= batch * context_len) by (nonlinear_arith)
                requires
                    row + 1 <= batch,
                    context_len >= 0,
            ;
            assert((row + 1) * sequence == row * sequence + sequence) by (nonlinear_arith);
            assert((row + 1) * context_len == row * context_len + context_len) by (nonlinear_arith);
            assert(0 <= row * sequence) by (nonlinear_arith)
                requires
                    row >= 0,
                    sequence >= 0,
            ;
            assert(0 <= row * context_len) by (nonlinear_arith)
                requires
                    row >= 0,
                    context_len >= 0,
            ;
        }
        let row_start: usize = row * sequence;
        let history_start: usize = row * context_len;
        let mut row_history: Vec<i32> = Vec::new();
        append_tokens(
            &mut row_history,
            slice_subrange(history, history_start, history_start + context_len),
        );
        let ghost start_history = flat_row(history@, row as int, context_len as int);
        let ghost row_tokens = flat_row(tokens@, row as int, sequence as int);
        let ghost base = shifted@;
        assert(row_history@ == start_history);
        assert(next_history(start_history, row_tokens.take(0)) == start_history);
        assert(base + Seq::<i32>::empty() == base);
        let mut position: usize = 0;
        while position < sequence
            invariant
                position <= sequence,
                ngram_size >= 2,
                context_len == ngram_size - 1,
                row_start == row * sequence,
                row_start + sequence <= token_count == tokens@.len(),
                row_tokens == flat_row(tokens@, row as int, sequence as int),
                (row + 1) * sequence == row_start + sequence,
                row_tokens.len() == sequence,
                start_history.len() == context_len,
                row_history@ == next_history(start_history, row_tokens.take(position as int)),
                shifted@ == base + shifted_row(
                    start_history,
                    row_tokens.take(position as int),
                    ngram_size as nat,
                    eos_token_id,
                ),
            decreases sequence - position,
        {
            let token: i32 = tokens[row_start + position];
            let ghost done = row_tokens.take(position as int);
            let ghost before = shifted@;
            assert(token == row_tokens[position as int]);
            shifted.push(token);
            let ghost pushed = shifted@;
            push_look_backs(&mut shifted, &row_history, ngram_size, eos_token_id);
            proof {
                let entry = shifted_entry(
                    start_history + done,
                    token,
                    ngram_size as nat,
                    eos_token_id,
                );
                let older = (start_history + done).take(position as int);
                assert(start_history + done =~= older + row_history@);
                entry_ignores_older(
                    older,
                    row_history@,
                    token,
                    ngram_size as nat,
                    eos_token_id,
                );
                assert forall|i: int| 0 <= i < entry.len() implies entry[i] == shifted@.skip(
                    before.len() as int,
                )[i] by {
                    if i == 0 {
                        assert(shifted@.take(pushed.len() as int)[before.len() as int]
                            == pushed[before.len() as int]);
                    } else {
                        assert(shifted@[pushed.len() + i - 1] == look_back(
                            row_history@,
                            i,
                            eos_token_id,
                        ));
                    }
                }
                assert(shifted@.skip(before.len() as int) =~= entry);
                assert forall|i: int| 0 <= i < before.len() implies shifted@[i] == before[i] by {
                    assert(shifted@.take(pushed.len() as int)[i] == pushed[i]);
                }
                assert(shifted@ =~= before + entry);
                let more = row_tokens.take(position + 1);
                assert(more.drop_last() == done);
                assert(before + entry == base + (shifted_row(
                    start_history,
                    done,
                    ngram_size as nat,
                    eos_token_id,
                ) + entry));
            }
            let ghost old_history = row_history@;
            let oldest: i32 = row_history.remove(0);
            row_history.push(token);
            proof {
                assert(row_history@ =~= next_history(
                    start_history,
                    row_tokens.take(position + 1),
                ));
            }
            position = position + 1;
        }
        assert(row_tokens.take(sequence as int) == row_tokens);
        append_tokens(&mut next, row_history.as_slice());
        row = row + 1;
    }
    (shifted, next)
}

/// The hash of the first `length` entries of a shifted token: products with the multipliers,
/// combined by exclusive or.
pub open spec fn ngram_hash(shifted: Seq<i32>, multipliers: Seq<u64>, length: nat) -> u64
    decreases length,
{
    if length <= 1 {
        (shifted[0] as u64).wrapping_mul(multipliers[0])
    } else {
        ngram_hash(shifted, multipliers, (length - 1) as nat) ^ (shifted[length
            - 1] as u64).wrapping_mul(multipliers[length - 1])
    }
}

fn hash_ngram(shifted: &[i32], multipliers: &Vec<u64>, length: usize) -> (hash: u64)
    requires
        1 <= length <= shifted@.len(),
        length <= multipliers@.len(),
    ensures
        hash == ngram_hash(shifted@, multipliers@, length as nat),
{
    let mut hash: u64 = (shifted[0] as u64).wrapping_mul(multipliers[0]);
    let mut position: usize = 1;
    while position < length
        invariant
            1 <= position <= length <= shifted@.len(),
            length <= multipliers@.len(),
            hash == ngram_hash(shifted@, multipliers@, position as nat),
        decreases length - position,
    {
        hash = hash ^ (shifted[position] as u64).wrapping_mul(multipliers[position]);
        position = position + 1;
    }
    hash
}

/// The bound below which half of a multiplier is drawn.
pub open spec fn half_bound(vocab_size: nat) -> nat {
    let bound = (i64::MAX as nat) / vocab_size / 2;
    if bound < 1 {
        1
    } else {
        bound
    }
}

/// The odd multiplier of a position.
pub open spec fn multiplier(seed: u64, vocab_size: nat, index: nat) -> u64 {
    let state = seed.wrapping_add(SPLITMIX_GAMMA.wrapping_mul((index + 1) as u64));
    (2 * (mixed(state) as nat % half_bound(vocab_size)) + 1) as u64
}

/// Multipliers are odd, and so small that the product with any token of the vocabulary stays within
/// the signed integers, so that no hash ever wraps.
pub proof fn multipliers_do_not_wrap(seed: u64, vocab_size: nat, index: nat, token: nat)
    requires
        0 < vocab_size,
        2 * vocab_size <= i64::MAX,
        token < vocab_size,
    ensures
        multiplier(seed, vocab_size, index) % 2 == 1,
        multiplier(seed, vocab_size, index) * token <= i64::MAX,
{
    let state = seed.wrapping_add(SPLITMIX_GAMMA.wrapping_mul((index + 1) as u64));
    let quotient = (i64::MAX as nat) / vocab_size;
    let bound = half_bound(vocab_size);
    vstd::arithmetic::div_mod::lemma_fundamental_div_mod(i64::MAX as int, vocab_size as int);
    assert(quotient >= 2) by (nonlinear_arith)
        requires
            i64::MAX as int == vocab_size * quotient + i64::MAX as int % vocab_size as int,
            (i64::MAX as int % vocab_size as int) < vocab_size,
            2 * vocab_size <= i64::MAX,
            vocab_size > 0,
    ;
    assert(bound == quotient / 2);
    let drawn = mixed(state) as nat % bound;
    vstd::arithmetic::div_mod::lemma_mod_bound(mixed(state) as int, bound as int);
    let m = 2 * drawn + 1;
    assert(m <= quotient);
    assert(quotient <= i64::MAX) by (nonlinear_arith)
        requires
            i64::MAX as int == vocab_size * quotient + i64::MAX as int % vocab_size as int,
            i64::MAX as int % vocab_size as int >= 0,
            vocab_size > 0,
    ;
    assert(multiplier(seed, vocab_size, index) == m);
    assert(m * token <= i64::MAX) by (nonlinear_arith)
        requires
            m <= quotient,
            token < vocab_size,
            i64::MAX as int == vocab_size * quotient + i64::MAX as int % vocab_size as int,
            i64::MAX as int % vocab_size as int >= 0,
    ;
}

/// Sum of the first `count` table sizes.
pub open spec fn size_sum(sizes: Seq<u64>, count: nat) -> nat
    decreases count,
{
    if count == 0 {
        0
    } else {
        size_sum(sizes, (count - 1) as nat) + sizes[count - 1] as nat
    }
}

proof fn size_sums_grow(sizes: Seq<u64>, low: nat, high: nat)
    requires
        low <= high,
    ensures
        size_sum(sizes, low) <= size_sum(sizes, high),
    decreases high - low,
{
    if low < high {
        size_sums_grow(sizes, low, (high - 1) as nat);
    }
}

/// Why an n-gram layer cannot be set up or run.
#[derive(Debug, Clone, Copy, PartialEq, Eq, Structural)]
pub enum PleError {
    /// There are not enough primes, or their tables are too large together.
    TableTooLarge,
    /// The tokens do not fill the announced rows.
    TokenShape,
}

/// The tables and hashes of an n-gram layer.
#[derive(Debug)]
pub struct Qwen4Ple {
    pub ngram_size: usize,
    pub heads_per_ngram: usize,
    pub head_sizes: Vec<u64>,
    pub head_offsets: Vec<u64>,
    pub multipliers: Vec<u64>,
    pub eos_token_id: i32,
    pub conv_state_len: usize,
}

impl Qwen4Ple {
    /// Heads of all n-gram lengths together.
    pub open spec fn heads(&self) -> nat {
        ((self.ngram_size - 1) * self.heads_per_ngram) as nat
    }

    /// Tables stand one after another, none is empty, and all their rows can be addressed.
    pub open spec fn wf(&self) -> bool {
        &&& self.ngram_size >= 2
        &&& self.heads() <= usize::MAX
        &&& self.head_sizes@.len() == self.heads()
        &&& self.head_offsets@.len() == self.heads()
        &&& self.multipliers@.len() == self.ngram_size
        &&& forall|head: int|
            0 <= head < self.heads() ==> #[trigger] self.head_offsets@[head] == size_sum(
                self.head_sizes@,
                head as nat,
            )
        &&& forall|head: int| 0 <= head < self.heads() ==> #[trigger] self.head_sizes@[head] > 0
        &&& size_sum(self.head_sizes@, self.heads()) <= usize::MAX
        &&& size_sum(self.head_sizes@, self.heads()) <= u64::MAX
    }

    /// Sets up the tables: the size of a head's table is the next prime above the base that no
    /// earlier head has.
    pub fn from_config(
        ngram_size: usize,
        heads_per_ngram: usize,
        ngram_vocab_size_base: usize,
        vocab_size: usize,
        seed: u64,
        eos_token_id: Option<i32>,
        conv_kernel_size: usize,
    ) -> (result: Result<Self, PleError>)
        requires
            ngram_size >= 2,
            (ngram_size - 1) * heads_per_ngram < usize::MAX,
            ngram_vocab_size_base >= 1,
            ngram_vocab_size_base <= u64::MAX,
            0 < vocab_size <= u64::MAX,
            conv_kernel_size >= 1,
            (conv_kernel_size - 1) * ngram_size <= usize::MAX,
            ngram_size < u64::MAX,
        ensures
            match result {
                Ok(ple) => {
                    &&& ple.wf()
                    &&& ple.ngram_size == ngram_size
                    &&& ple.heads_per_ngram == heads_per_ngram
                    &&& forall|head: int|
                        0 <= head < ple.heads() ==> is_nth_prime_after(
                            #[trigger] ple.head_sizes@[head] as nat,
                            (ngram_vocab_size_base - 1) as nat,
                            (head + 1) as nat,
                        )
                    &&& forall|index: int|
                        0 <= index < ngram_size ==> #[trigger] ple.multipliers@[index]
                            == multiplier(seed, vocab_size as nat, index as nat)
                    &&& ple.eos_token_id == (match eos_token_id {
                        Some(token) => token,
                        None => 248044,
                    })
                    &&& ple.conv_state_len == (conv_kernel_size - 1) * ngram_size
                },
                Err(error) => error == PleError::TableTooLarge && {
                    ||| primes_up_to((ngram_vocab_size_base - 1) as nat, u64::MAX as nat) < (
                    ngram_size - 1) * heads_per_ngram
                    ||| exists|sizes: Seq<u64>|
                        #![trigger size_sum(sizes, sizes.len())]
                        {
                            &&& sizes.len() <= (ngram_size - 1) * heads_per_ngram
                            &&& forall|head: int|
                                0 <= head < sizes.len() ==> is_nth_prime_after(
                                    #[trigger] sizes[head] as nat,
                                    (ngram_vocab_size_base - 1) as nat,
                                    (head + 1) as nat,
                                )
                            &&& size_sum(sizes, sizes.len()) > usize::MAX || size_sum(
                                sizes,
                                sizes.len(),
                            ) > u64::MAX
                        }
                },
            },
    {
        let heads: usize = (ngram_size - 1) * heads_per_ngram;
        let base: u64 = ngram_vocab_size_base as u64 - 1;
        let mut head_sizes: Vec<u64> = Vec::new();
        let mut head_offsets: Vec<u64> = Vec::new();
        let mut offset: u64 = 0;
        let mut head: usize = 0;
        while head < heads
            invariant
                head <= heads < usize::MAX,
                heads == (ngram_size - 1) * heads_per_ngram,
                base == ngram_vocab_size_base - 1,
                ngram_vocab_size_base >= 1,
                head_sizes@.len() == head,
                head_offsets@.len() == head,
                offset == size_sum(head_sizes@, head as nat),
                offset <= usize::MAX,
                forall|h: int|
                    0 <= h < head ==> #[trigger] head_offsets@[h] == size_sum(
                        head_sizes@,
                        h as nat,
                    ),
                forall|h: int|
                    0 <= h < head ==> is_nth_prime_after(
                        #[trigger] head_sizes@[h] as nat,
                        base as nat,
                        (h + 1) as nat,
                    ),
            decreases heads - head,
        {
            let size: u64 = match find_nth_prime_after(base, head + 1) {
                Some(size) => size,
                None => {
                    return Err(PleError::TableTooLarge);
                },
            };
            let ghost before = head_sizes@;
            head_sizes.push(size);
            head_offsets.push(offset);
            proof {
                size_sum_of_prefix(before, head_sizes@, head as nat);
                assert forall|h: nat| h < head implies #[trigger] size_sum(head_sizes@, h)
                    == size_sum(before, h) by {
                    size_sum_of_prefix(before, head_sizes@, h);
                }
                assert(size_sum(head_sizes@, (head + 1) as nat) == size_sum(
                    head_sizes@,
                    head as nat,
                ) + size as nat);
            }
            match offset.checked_add(size) {
                Some(sum) => {
                    if sum > usize::MAX as u64 {
                        assert(size_sum(head_sizes@, head_sizes@.len()) > usize::MAX);
                        return Err(PleError::TableTooLarge);
                    }
                    offset = sum;
                },
                None => {
                    assert(size_sum(head_sizes@, head_sizes@.len()) > u64::MAX);
                    return Err(PleError::TableTooLarge);
                },
            }
            head = head + 1;
        }
        let quotient: u64 = 0x7fff_ffff_ffff_ffff / vocab_size as u64 / 2;
        let bound: u64 = if quotient < 1 {
            1
        } else {
            quotient
        };
        assert(bound == half_bound(vocab_size as nat));
        assert(bound <= 0x3fff_ffff_ffff_ffff) by {
            vstd::arithmetic::div_mod::lemma_div_nonincreasing(
                0x7fff_ffff_ffff_ffff,
                vocab_size as int,
            );
        }
        let mut multipliers: Vec<u64> = Vec::new();
        let mut index: usize = 0;
        while index < ngram_size
            invariant
                index <= ngram_size,
                ngram_size < u64::MAX,
                0 < bound <= 0x3fff_ffff_ffff_ffff,
                bound == half_bound(vocab_size as nat),
                multipliers@.len() == index,
                forall|i: int|
                    0 <= i < index ==> #[trigger] multipliers@[i] == multiplier(
                        seed,
                        vocab_size as nat,
                        i as nat,
                    ),
            decreases ngram_size - index,
        {
            let value: u64 = seed.wrapping_add(SPLITMIX_GAMMA.wrapping_mul(index as u64 + 1));
            multipliers.push(2 * (splitmix64(value) % bound) + 1);
            index = index + 1;
        }
        Ok(
            Qwen4Ple {
                ngram_size,
                heads_per_ngram,
                head_sizes,
                head_offsets,
                multipliers,
                eos_token_id: match eos_token_id {
                    Some(token) => token,
                    None => 248044,
                },
                conv_state_len: (conv_kernel_size - 1) * ngram_size,
            },
        )
    }

    /// The n-gram length that a head hashes.
    pub open spec fn head_length(&self, head: int) -> int {
        head / self.heads_per_ngram as int + 2
    }

    /// The table row that a head reads for a shifted token.
    pub open spec fn row_of(&self, shifted: Seq<i32>, head: int) -> int {
        self.head_offsets@[head] as int + ngram_hash(
            shifted,
            self.multipliers@,
            self.head_length(head) as nat,
        ) as int % self.head_sizes@[head] as int
    }

    /// Every head reads rows of its own table only.
    pub proof fn heads_do_not_share_rows(
        &self,
        left: Seq<i32>,
        right: Seq<i32>,
        low: int,
        high: int,
    )
        requires
            self.wf(),
            0 <= low < high < self.heads(),
        ensures
            0 <= self.row_of(left, low) < self.head_offsets@[high],
            self.head_offsets@[high] <= self.row_of(right, high) < size_sum(
                self.head_sizes@,
                self.heads(),
            ),
            self.row_of(left, low) != self.row_of(right, high),
    {
        let sizes = self.head_sizes@;
        let low_hash = ngram_hash(left, self.multipliers@, self.head_length(low) as nat) as int;
        let high_hash = ngram_hash(right, self.multipliers@, self.head_length(high) as nat) as int;
        assert(sizes[low] > 0 && sizes[high] > 0);
        vstd::arithmetic::div_mod::lemma_mod_bound(low_hash, sizes[low] as int);
        vstd::arithmetic::div_mod::lemma_mod_bound(high_hash, sizes[high] as int);
        assert(self.head_offsets@[low] == size_sum(sizes, low as nat));
        assert(self.head_offsets@[high] == size_sum(sizes, high as nat));
        assert(size_sum(sizes, (low + 1) as nat) == size_sum(sizes, low as nat) + sizes[low]);
        assert(size_sum(sizes, (high + 1) as nat) == size_sum(sizes, high as nat) + sizes[high]);
        size_sums_grow(sizes, (low + 1) as nat, high as nat);
        size_sums_grow(sizes, (high + 1) as nat, self.heads());
    }

    /// A head reads a row of its own table, which the machine can address.
    pub proof fn heads_stay_in_tables(&self, shifted: Seq<i32>, head: int)
        requires
            self.wf(),
            0 <= head < self.heads(),
        ensures
            self.head_offsets@[head] <= self.row_of(shifted, head) < self.head_offsets@[head]
                + self.head_sizes@[head],
            self.row_of(shifted, head) <= usize::MAX,
    {
        let sizes = self.head_sizes@;
        let hash = ngram_hash(shifted, self.multipliers@, self.head_length(head) as nat) as int;
        assert(sizes[head] > 0);
        vstd::arithmetic::div_mod::lemma_mod_bound(hash, sizes[head] as int);
        assert(self.head_offsets@[head] == size_sum(sizes, head as nat));
        assert(size_sum(sizes, (head + 1) as nat) == size_sum(sizes, head as nat) + sizes[head]);
        size_sums_grow(sizes, (head + 1) as nat, self.heads());
    }

    /// The rows that a shifted token reads, head by head.
    pub open spec fn token_rows(&self, shifted: Seq<i32>) -> Seq<usize> {
        Seq::new(self.heads(), |head: int| self.row_of(shifted, head) as usize)
    }

    /// The rows that the first `count` shifted tokens read.
    pub open spec fn table_rows(&self, shifted: Seq<i32>, count: nat) -> Seq<usize>
        decreases count,
    {
        if count == 0 {
            Seq::empty()
        } else {
            self.table_rows(shifted, (count - 1) as nat) + self.token_rows(
                flat_row(shifted, count - 1, self.ngram_size as int),
            )
        }
    }

    fn push_token_rows(&self, shifted: &[i32], rows: &mut Vec<usize>)
        requires
            self.wf(),
            shifted@.len() == self.ngram_size,
        ensures
            final(rows)@ == old(rows)@ + self.token_rows(shifted@),
    {
        let ghost before = rows@;
        let ghost all = self.token_rows(shifted@);
        let heads: usize = self.head_sizes.len();
        let mut before_token: usize = 1;
        let mut head: usize = 0;
        let ghost per = self.heads_per_ngram as int;
        assert(all.take(0) == Seq::<usize>::empty());
        assert(before + Seq::<usize>::empty() == before);
        assert((1 - 1) * per == 0) by (nonlinear_arith);
        while before_token < self.ngram_size
            invariant
                self.wf(),
                heads == self.heads(),
                shifted@.len() == self.ngram_size,
                1 <= before_token <= self.ngram_size,
                per == self.heads_per_ngram,
                head == (before_token - 1) * per,
                head <= heads,
                all == self.token_rows(shifted@),
                rows@ == before + all.take(head as int),
            decreases self.ngram_size - before_token,
        {
            let hash: u64 = hash_ngram(shifted, &self.multipliers, before_token + 1);
            proof {
                assert(before_token * per == (before_token - 1) * per + per) by (nonlinear_arith);
                assert(before_token * per <= (self.ngram_size - 1) * per) by (nonlinear_arith)
                    requires
                        before_token < self.ngram_size,
                        per >= 0,
                ;
            }
            let last: usize = head + self.heads_per_ngram;
            let ghost first_head = head as int;
            while head < last
                invariant
                    self.wf(),
                    heads == self.heads(),
                    1 <= before_token < self.ngram_size,
                    per == self.heads_per_ngram,
                    first_head == (before_token - 1) * per,
                    first_head <= head <= last == first_head + per,
                    last <= heads,
                    hash == ngram_hash(shifted@, self.multipliers@, (before_token + 1) as nat),
                    all == self.token_rows(shifted@),
                    rows@ == before + all.take(head as int),
                decreases last - head,
            {
                proof {
                    vstd::arithmetic::div_mod::lemma_fundamental_div_mod_converse(
                        head as int,
                        per,
                        before_token - 1,
                        head - first_head,
                    );
                    assert(self.head_length(head as int) == before_token + 1);
                    assert(self.head_sizes@[head as int] > 0);
                    assert(self.head_offsets@[head as int] == size_sum(
                        self.head_sizes@,
                        head as nat,
                    ));
                    size_sums_grow(self.head_sizes@, (head + 1) as nat, self.heads());
                    vstd::arithmetic::div_mod::lemma_mod_bound(
                        hash as int,
                        self.head_sizes@[head as int] as int,
                    );
                }
                let value: u64 = self.head_offsets[head] + hash % self.head_sizes[head];
                rows.push(value as usize);
                assert(all.take(head + 1) == all.take(head as int).push(all[head as int]));
                assert(value == self.row_of(shifted@, head as int));
                head = head + 1;
            }
            before_token = before_token + 1;
        }
        assert(head == heads);
        assert(all.take(all.len() as int) == all);
    }

    /// Looks up a chunk of tokens: the table rows to read, token by token and head by head. The
    /// history is carried on; one of the wrong size is replaced by end-of-sequence tokens first.
    pub fn forward_chunk(
        &self,
        tokens: &[i32],
        batch: usize,
        sequence: usize,
        history: &mut Vec<i32>,
    ) -> (result: Result<Vec<usize>, PleError>)
        requires
            self.wf(),
            batch * (self.ngram_size - 1) <= usize::MAX,
            batch * sequence <= usize::MAX,
        ensures
            if tokens@.len() != batch * sequence {
                &&& result == Err::<Vec<usize>, PleError>(PleError::TokenShape)
                &&& final(history)@ == old(history)@
            } else {
                let context = if old(history)@.len() == batch * (self.ngram_size - 1) {
                    old(history)@
                } else {
                    Seq::new(
                        (batch * (self.ngram_size - 1)) as nat,
                        |i: int| self.eos_token_id,
                    )
                };
                let shifted = shifted_rows(
                    tokens@,
                    context,
                    batch as nat,
                    sequence as nat,
                    self.ngram_size as nat,
                    self.eos_token_id,
                );
                &&& result matches Ok(rows)
                &&& rows@ == self.table_rows(shifted, tokens@.len())
                &&& final(history)@ == next_histories(
                    tokens@,
                    context,
                    batch as nat,
                    sequence as nat,
                    self.ngram_size as nat,
                )
            },
    {
        if tokens.len() != batch * sequence {
            return Err(PleError::TokenShape);
        }
        let context_len: usize = batch * (self.ngram_size - 1);
        if history.len() != context_len {
            history.clear();
            history.resize(context_len, self.eos_token_id);
            assert(history@ =~= Seq::new(
                (batch * (self.ngram_size - 1)) as nat,
                |i: int| self.eos_token_id,
            ));
        }
        let ghost context = history@;
        let (shifted, next) = ple_shifted_tokens(
            tokens,
            history.as_slice(),
            batch,
            sequence,
            self.ngram_size,
            self.eos_token_id,
        );
        proof {
            shifted_rows_len(
                tokens@,
                context,
                batch as nat,
                sequence as nat,
                self.ngram_size as nat,
                self.eos_token_id,
            );
            assert(batch * sequence * self.ngram_size == tokens@.len() * self.ngram_size);
        }
        let total: usize = tokens.len();
        let length: usize = shifted.len();
        let mut rows: Vec<usize> = Vec::new();
        let mut index: usize = 0;
        let mut start: usize = 0;
        while index < total
            invariant
                self.wf(),
                index <= total,
                length == shifted@.len() == total * self.ngram_size,
                start == index * self.ngram_size,
                rows@ == self.table_rows(shifted@, index as nat),
            decreases total - index,
        {
            proof {
                assert((index + 1) * self.ngram_size == index * self.ngram_size
                    + self.ngram_size) by (nonlinear_arith);
                assert((index + 1) * self.ngram_size <= total * self.ngram_size) by (nonlinear_arith)
                    requires
                        index + 1 <= total,
                        self.ngram_size >= 0,
                ;
            }
            let end: usize = start + self.ngram_size;
            let entry = slice_subrange(shifted.as_slice(), start, end);
            assert(entry@ == flat_row(shifted@, index as int, self.ngram_size as int));
            self.push_token_rows(entry, &mut rows);
            index = index + 1;
            start = end;
        }
        *history = next;
        Ok(rows)
    }
}

proof fn size_sum_of_prefix(shorter: Seq<u64>, longer: Seq<u64>, count: nat)
    requires
        count <= shorter.len() <= longer.len(),
        forall|i: int| 0 <= i < shorter.len() ==> shorter[i] == longer[i],
    ensures
        size_sum(shorter, count) == size_sum(longer, count),
    decreases count,
{
    if count > 0 {
        size_sum_of_prefix(shorter, longer, (count - 1) as nat);
    }
}

proof fn shifted_row_len(history: Seq<i32>, tokens: Seq<i32>, ngram_size: nat, eos: i32)
    ensures
        shifted_row(history, tokens, ngram_size, eos).len() == tokens.len() * ngram_size,
    decreases tokens.len(),
{
    if tokens.len() > 0 {
        shifted_row_len(history, tokens.drop_last(), ngram_size, eos);
        assert(tokens.len() * ngram_size == (tokens.len() - 1) * ngram_size + ngram_size)
            by (nonlinear_arith);
    } else {
        assert(0 * ngram_size == 0) by (nonlinear_arith);
    }
}

proof fn shifted_rows_len(
    tokens: Seq<i32>,
    history: Seq<i32>,
    rows: nat,
    sequence: nat,
    ngram_size: nat,
    eos: i32,
)
    requires
        ngram_size >= 1,
        tokens.len() >= rows * sequence,
        history.len() >= rows * (ngram_size - 1),
    ensures
        shifted_rows(tokens, history, rows, sequence, ngram_size, eos).len() == rows * sequence
            * ngram_size,
    decreases rows,
{
    if rows > 0 {
        let fewer = (rows - 1) as nat;
        assert(rows * sequence == fewer * sequence + sequence) by (nonlinear_arith)
            requires
                rows == fewer + 1,
        ;
        assert(rows * (ngram_size - 1) == fewer * (ngram_size - 1) + (ngram_size - 1))
            by (nonlinear_arith)
            requires
                rows == fewer + 1,
        ;
        assert(0 <= fewer * sequence) by (nonlinear_arith);
        shifted_rows_len(tokens, history, fewer, sequence, ngram_size, eos);
        let row = flat_row(tokens, rows - 1, sequence as int);
        assert(row.len() == sequence);
        shifted_row_len(flat_row(history, rows - 1, ngram_size - 1), row, ngram_size, eos);
        assert((fewer * sequence + sequence) * ngram_size == fewer * sequence * ngram_size + sequence
            * ngram_size) by (nonlinear_arith);
    } else {
        assert(0 * sequence * ngram_size == 0) by (nonlinear_arith);
    }
}

} // verus!
