//! Helpers over token sequences.

use vstd::prelude::*;
use vstd::slice::slice_to_vec;

verus! {

/// Whether `token` occurs in `tokens`.
pub fn contains_token(tokens: &[i32], token: i32) -> (found: bool)
    ensures
        found == tokens@.contains(token),
{
    let mut index: usize = 0;
    while index < tokens.len()
        invariant
            index <= tokens@.len(),
            forall|i: int| 0 <= i < index ==> tokens@[i] != token,
        decreases tokens@.len() - index,
    {
        if tokens[index] == token {
            assert(tokens@[index as int] == token);
            return true;
        }
        index = index + 1;
    }
    false
}

/// Appends every token of `tail` to `head`, in order.
pub fn append_tokens(head: &mut Vec<i32>, tail: &[i32])
    ensures
        final(head)@ == old(head)@ + tail@,
{
    let ghost before = head@;
    let mut index: usize = 0;
    while index < tail.len()
        invariant
            index <= tail@.len(),
            head@ == before + tail@.take(index as int),
        decreases tail@.len() - index,
    {
        head.push(tail[index]);
        index = index + 1;
        assert(tail@.take(index as int) == tail@.take(index - 1).push(tail@[index - 1]));
    }
    assert(tail@.take(tail@.len() as int) == tail@);
}

/// Whether two token sequences are equal element by element.
pub fn same_tokens(left: &[i32], right: &[i32]) -> (same: bool)
    ensures
        same == (left@ == right@),
{
    if left.len() != right.len() {
        return false;
    }
    let mut index: usize = 0;
    while index < left.len()
        invariant
            left@.len() == right@.len(),
            index <= left@.len(),
            forall|i: int| 0 <= i < index ==> left@[i] == right@[i],
        decreases left@.len() - index,
    {
        if left[index] != right[index] {
            return false;
        }
        index = index + 1;
    }
    assert(left@ == right@);
    true
}

/// Copies a token slice into a vector.
pub fn copy_tokens(tokens: &[i32]) -> (copy: Vec<i32>)
    ensures
        copy@ == tokens@,
{
    slice_to_vec(tokens)
}

} // verus!
