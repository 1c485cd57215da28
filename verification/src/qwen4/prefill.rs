//! Feeding a prompt to the target in chunks.

use vstd::prelude::*;
use crate::qwen3_next::{covers_rows, RowRange};
use crate::qwen4::chunks::{chunk_ranges, microchunk_ranges};
use crate::qwen_position::{axis_entry, decode_position, decode_rope_positions};
use crate::qwen_rope_state::{RopeEntry, RopeState};

verus! {

/// A prompt without tokens cannot be fed.
#[derive(Debug, Clone, Copy, PartialEq, Eq, Structural)]
pub struct EmptyPrompt;

/// Tokens per chunk: the effective chunk length, else the whole prompt.
pub open spec fn chunk_len(effective: Option<usize>, tokens: int) -> int {
    match effective {
        Some(length) => length as int,
        None => tokens,
    }
}

/// Cuts a prompt of `tokens` tokens into chunks. The last one ends the prompt.
pub fn prefill_ranges(tokens: i32, effective: Option<usize>) -> (result: Result<
    Vec<RowRange>,
    EmptyPrompt,
>)
    requires
        tokens >= 0,
        effective matches Some(length) ==> 0 < length <= i32::MAX,
    ensures
        match result {
            Ok(ranges) => {
                &&& tokens > 0
                &&& ranges@ == chunk_ranges(tokens as int, chunk_len(effective, tokens as int))
                &&& covers_rows(ranges@, tokens as int)
            },
            Err(_) => tokens == 0,
        },
{
    if tokens == 0 {
        return Err(EmptyPrompt);
    }
    let length: i32 = match effective {
        Some(length) => length as i32,
        None => tokens,
    };
    Ok(microchunk_ranges(tokens, length))
}

/// Rotary state at the start of a prefill: that of a fresh sequence, with explicit positions where
/// both they and their delta are given.
pub open spec fn rope_at_start(
    rope: RopeState,
    position_ids: Option<u64>,
    rope_delta: Option<i32>,
) -> RopeState {
    match (position_ids, rope_delta) {
        (Some(_), Some(_)) => RopeState {
            active: RopeEntry { position_ids, rope_deltas: rope_delta },
            pending: None,
            position: 0,
        },
        _ => RopeState { pending: rope.pending, ..RopeState::initial() },
    }
}

/// Starts a prefill.
pub fn begin_prefill(rope: &mut RopeState, position_ids: Option<u64>, rope_delta: Option<i32>)
    ensures
        *final(rope) == rope_at_start(*old(rope), position_ids, rope_delta),
{
    rope.clear();
    if let (Some(position_ids), Some(rope_delta)) = (position_ids, rope_delta) {
        rope.prepare(position_ids, rope_delta);
        let activated: bool = rope.activate_prepared().is_ok();
        assert(activated);
    }
}

/// Ends a prefill after which the caches hold `offset` tokens. Explicit positions are dropped.
pub fn finish_prefill(rope: &mut RopeState, offset: i32, position_ids: Option<u64>)
    ensures
        final(rope).position == offset,
        final(rope).pending == old(rope).pending,
        final(rope).active.rope_deltas == old(rope).active.rope_deltas,
        final(rope).active.position_ids == if position_ids is Some {
            None
        } else {
            old(rope).active.position_ids
        },
{
    rope.set_position(offset);
    if position_ids.is_some() {
        rope.finish_prefill();
    }
}

/// After a prefill of explicit positions decoding adds their delta and no positions are left.
pub proof fn prefill_leaves_delta(rope: RopeState, position_ids: u64, rope_delta: i32)
    ensures
        rope_at_start(rope, Some(position_ids), Some(rope_delta)).active.rope_deltas == Some(
            rope_delta,
        ),
        rope_at_start(rope, Some(position_ids), Some(rope_delta)).active.position_ids == Some(
            position_ids,
        ),
        rope_at_start(rope, Some(position_ids), Some(rope_delta)).pending is None,
        rope_at_start(rope, None, None).active.rope_deltas is None,
{
}

/// Cache capacity for `suffix` tokens after those that are cached.
pub fn suffix_capacity(cached: i32, suffix: i32) -> (capacity: i32)
    requires
        cached >= 0,
        suffix >= 0,
    ensures
        capacity == if cached + suffix <= i32::MAX {
            cached + suffix
        } else {
            i32::MAX as int
        },
{
    if suffix <= i32::MAX - cached {
        cached + suffix
    } else {
        i32::MAX
    }
}

/// The row of the last token, whose logits start the reply.
pub fn last_row(tokens: i32) -> (row: RowRange)
    requires
        tokens > 0,
    ensures
        row == (RowRange { start: (tokens - 1) as i32, end: tokens }),
{
    RowRange { start: tokens - 1, end: tokens }
}

/// Positions of decoded tokens, if the sequence has a delta: three equal axes that continue from
/// the cache offset.
pub fn decode_positions(rope: &RopeState, cache_offset: i32, sequence_length: i32) -> (positions:
    Option<Vec<i32>>)
    requires
        sequence_length >= 0,
        3 * sequence_length <= usize::MAX,
        rope.active.rope_deltas matches Some(delta) ==> i32::MIN <= cache_offset + delta
            && cache_offset + delta + sequence_length <= i32::MAX,
    ensures
        positions is Some == rope.active.rope_deltas is Some,
        positions matches Some(positions) ==> {
            &&& positions@.len() == 3 * sequence_length
            &&& forall|axis: int, i: int|
                0 <= axis < 3 && 0 <= i < sequence_length ==> #[trigger] axis_entry(
                    positions@,
                    sequence_length as int,
                    axis,
                    i,
                ) == decode_position(cache_offset as int, rope.active.rope_deltas->0 as int, i)
        },
{
    match rope.rope_delta() {
        Some(delta) => Some(decode_rope_positions(cache_offset, sequence_length, delta)),
        None => None,
    }
}

} // verus!
