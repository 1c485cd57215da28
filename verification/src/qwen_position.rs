//! Rotary positions of decoded tokens.

use vstd::prelude::*;

verus! {

/// Position `i` of the tokens that follow `cache_offset` tokens.
pub open spec fn decode_position(cache_offset: int, rope_delta: int, i: int) -> int {
    cache_offset + rope_delta + i
}

/// Positions of `sequence_length` tokens that follow `cache_offset` tokens. The three rotary axes
/// are the same, one after the other.
pub fn decode_rope_positions(cache_offset: i32, sequence_length: i32, rope_delta: i32) -> (positions:
    Vec<i32>)
    requires
        sequence_length >= 0,
        3 * sequence_length <= usize::MAX,
        i32::MIN <= cache_offset + rope_delta,
        cache_offset + rope_delta + sequence_length <= i32::MAX,
    ensures
        positions@.len() == 3 * sequence_length,
        forall|axis: int, i: int|
            0 <= axis < 3 && 0 <= i < sequence_length ==> #[trigger] axis_entry(
                positions@,
                sequence_length as int,
                axis,
                i,
            ) == decode_position(cache_offset as int, rope_delta as int, i),
        forall|k: int|
            0 <= k < positions@.len() ==> #[trigger] positions@[k] == cache_offset + rope_delta + k
                % sequence_length as int,
{
    let first: i32 = cache_offset + rope_delta;
    let mut positions: Vec<i32> = Vec::new();
    let mut axis: usize = 0;
    while axis < 3
        invariant
            axis <= 3,
            sequence_length >= 0,
            first == cache_offset + rope_delta,
            first + sequence_length <= i32::MAX,
            positions@.len() == axis * sequence_length,
            forall|other: int, i: int|
                0 <= other < axis && 0 <= i < sequence_length ==> #[trigger] axis_entry(
                    positions@,
                    sequence_length as int,
                    other,
                    i,
                ) == first + i,
        decreases 3 - axis,
    {
        let ghost before = positions@;
        let mut i: i32 = 0;
        while i < sequence_length
            invariant
                axis < 3,
                0 <= i <= sequence_length,
                first + sequence_length <= i32::MAX,
                before.len() == axis * sequence_length,
                positions@.len() == before.len() + i,
                forall|k: int| 0 <= k < before.len() ==> #[trigger] positions@[k] == before[k],
                forall|k: int|
                    before.len() <= k < positions@.len() ==> #[trigger] positions@[k] == first + (k
                        - before.len()),
            decreases sequence_length - i,
        {
            positions.push(first + i);
            i = i + 1;
        }
        proof {
            assert forall|other: int, k: int|
                0 <= other < axis + 1 && 0 <= k < sequence_length implies #[trigger] axis_entry(
                positions@,
                sequence_length as int,
                other,
                k,
            ) == first + k by {
                if other < axis {
                    assert(axis_entry(before, sequence_length as int, other, k) == first + k);
                    assert(0 <= other * sequence_length + k < axis * sequence_length)
                        by (nonlinear_arith)
                        requires
                            0 <= other < axis,
                            0 <= k < sequence_length,
                    ;
                }
            }
            assert((axis + 1) * sequence_length == axis * sequence_length + sequence_length)
                by (nonlinear_arith);
        }
        axis = axis + 1;
    }
    proof {
        assert forall|k: int| 0 <= k < positions@.len() implies #[trigger] positions@[k]
            == cache_offset + rope_delta + k % sequence_length as int by {
            let length = sequence_length as int;
            let other = k / length;
            vstd::arithmetic::div_mod::lemma_fundamental_div_mod(k, length);
            vstd::arithmetic::div_mod::lemma_mod_bound(k, length);
            vstd::arithmetic::div_mod::lemma_div_pos_is_pos(k, length);
            vstd::arithmetic::div_mod::lemma_multiply_divide_lt(k, length, 3);
            assert(length * other == other * length) by (nonlinear_arith);
            assert(axis_entry(positions@, length, other, k % length) == first + k % length);
        }
    }
    positions
}

/// Entry `i` of one axis of positions that stand axis after axis.
pub open spec fn axis_entry(positions: Seq<i32>, length: int, axis: int, i: int) -> i32 {
    positions[axis * length + i]
}

} // verus!
