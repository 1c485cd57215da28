//! Cutting sequences into chunks and carrying a tail from one chunk to the next.

use vstd::prelude::*;
use crate::qwen3_next::{covers_rows, RowRange};
use crate::tokens::append_tokens;

verus! {

/// Tokens of a prefill that go through a recurrent layer at a time.
pub const QWEN4_PREFILL_MICROCHUNK_TOKENS: i32 = 128;

/// The chunks of `sequence` rows: all of `chunk` rows, but for a shorter last one.
pub open spec fn chunk_ranges(sequence: int, chunk: int) -> Seq<RowRange> {
    Seq::new(
        ((sequence + chunk - 1) / chunk) as nat,
        |i: int|
            RowRange {
                start: (i * chunk) as i32,
                end: if (i + 1) * chunk < sequence {
                    ((i + 1) * chunk) as i32
                } else {
                    sequence as i32
                },
            },
    )
}

/// Cuts a sequence into chunks.
pub fn microchunk_ranges(sequence: i32, chunk: i32) -> (ranges: Vec<RowRange>)
    requires
        sequence > 0,
        chunk > 0,
    ensures
        ranges@ == chunk_ranges(sequence as int, chunk as int),
        covers_rows(ranges@, sequence as int),
{
    let mut ranges: Vec<RowRange> = Vec::new();
    let mut start: i32 = 0;
    let ghost mut count: int = 0;
    assert(0 * chunk == 0) by (nonlinear_arith);
    while start < sequence
        invariant
            0 <= start <= sequence,
            chunk > 0,
            sequence > 0,
            count == ranges@.len(),
            start == sequence || start == count * chunk,
            count > 0 ==> (count - 1) * chunk < sequence,
            start == sequence ==> sequence <= count * chunk,
            forall|i: int|
                0 <= i < count ==> (#[trigger] ranges@[i]).start == i * chunk && ranges@[i].end == (
                if (i + 1) * chunk < sequence {
                    (i + 1) * chunk
                } else {
                    sequence as int
                }),
            count > 0 ==> ranges@.last().end == start,
            count == 0 ==> start == 0,
            count > 0 ==> ranges@[0].start == 0,
            forall|i: int| 0 <= i < count ==> (#[trigger] ranges@[i]).start < ranges@[i].end,
            forall|i: int, j: int|
                0 <= i && j == i + 1 && j < count ==> (#[trigger] ranges@[i]).end == (
                #[trigger] ranges@[j]).start,
        decreases sequence - start,
    {
        let stop: i32 = if sequence - start > chunk {
            start + chunk
        } else {
            sequence
        };
        let ghost before = ranges@;
        ranges.push(RowRange { start, end: stop });
        proof {
            assert((count + 1) * chunk == count * chunk + chunk) by (nonlinear_arith);
            assert forall|i: int| 0 <= i < count implies ranges@[i] == before[i] by {}
            count = count + 1;
        }
        start = stop;
    }
    proof {
        assert((count - 1) * chunk == count * chunk - chunk) by (nonlinear_arith);
        let total = (sequence + chunk - 1) / chunk as int;
        vstd::arithmetic::div_mod::lemma_fundamental_div_mod_converse(
            sequence + chunk - 1,
            chunk as int,
            count,
            sequence + chunk - 1 - count * chunk,
        );
        assert(total == count);
        assert(ranges@ =~= chunk_ranges(sequence as int, chunk as int));
    }
    ranges
}

/// The last `length` elements.
pub open spec fn tail_of(rows: Seq<i32>, length: nat) -> Seq<i32> {
    rows.skip(rows.len() - length)
}

/// Appends rows to a carried state of `state_len` rows. Returns everything that a convolution
/// reads and the state to carry on.
pub fn append_ple_conv_state(state: &[i32], rows: &[i32], state_len: usize) -> (result: (
    Vec<i32>,
    Vec<i32>,
))
    requires
        state_len <= state@.len() + rows@.len(),
    ensures
        result.0@ == state@ + rows@,
        result.1@ == tail_of(state@ + rows@, state_len as nat),
{
    let mut input: Vec<i32> = Vec::new();
    append_tokens(&mut input, state);
    append_tokens(&mut input, rows);
    assert(input@ == state@ + rows@);
    let mut tail: Vec<i32> = Vec::new();
    let length: usize = input.len();
    append_tokens(
        &mut tail,
        vstd::slice::slice_subrange(input.as_slice(), length - state_len, length),
    );
    assert(tail@ == tail_of(state@ + rows@, state_len as nat));
    (input, tail)
}

/// Carrying the state chunk by chunk leaves the same state as appending everything at once.
pub proof fn carried_tail_ignores_chunking(
    state: Seq<i32>,
    first: Seq<i32>,
    second: Seq<i32>,
    length: nat,
)
    requires
        state.len() >= length,
    ensures
        tail_of(tail_of(state + first, length) + second, length) == tail_of(
            state + (first + second),
            length,
        ),
{
    assert(tail_of(tail_of(state + first, length) + second, length) =~= tail_of(
        state + (first + second),
        length,
    ));
}

} // verus!
