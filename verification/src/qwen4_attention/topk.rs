//! The largest values of a row.

use vstd::prelude::*;

verus! {

/// Whether values never grow from left to right.
pub open spec fn descending(values: Seq<i32>) -> bool {
    forall|i: int, j: int| 0 <= i < j < values.len() ==> values[i] >= values[j]
}

/// Puts `value` behind every value of a descending list that is at least as large.
pub open spec fn insert_descending(sorted: Seq<i32>, value: i32) -> Seq<i32>
    decreases sorted.len(),
{
    if sorted.len() == 0 {
        seq![value]
    } else if value > sorted.last() {
        insert_descending(sorted.drop_last(), value).push(sorted.last())
    } else {
        sorted.push(value)
    }
}

/// `values` from the largest to the smallest.
pub open spec fn sorted_descending(values: Seq<i32>) -> Seq<i32>
    decreases values.len(),
{
    if values.len() == 0 {
        values
    } else {
        insert_descending(sorted_descending(values.drop_last()), values.last())
    }
}

/// The first `k` values, or all of them.
pub open spec fn first(values: Seq<i32>, k: nat) -> Seq<i32> {
    if values.len() <= k {
        values
    } else {
        values.take(k as int)
    }
}

/// The `k` largest values, the largest first.
pub open spec fn largest(values: Seq<i32>, k: nat) -> Seq<i32> {
    first(sorted_descending(values), k)
}

spec fn all_at_least(values: Seq<i32>, bound: i32) -> bool {
    forall|i: int| 0 <= i < values.len() ==> values[i] >= bound
}

proof fn insert_keeps_order(sorted: Seq<i32>, value: i32)
    requires
        descending(sorted),
    ensures
        descending(insert_descending(sorted, value)),
        insert_descending(sorted, value).len() == sorted.len() + 1,
        insert_descending(sorted, value).to_multiset() == sorted.to_multiset().insert(value),
        forall|bound: i32|
            #[trigger] all_at_least(sorted, bound) && value >= bound ==> all_at_least(
                insert_descending(sorted, value),
                bound,
            ),
    decreases sorted.len(),
{
    broadcast use vstd::seq_lib::group_to_multiset_ensures;

    if sorted.len() == 0 {
        assert(insert_descending(sorted, value) == sorted.push(value));
    } else if value > sorted.last() {
        let shorter = sorted.drop_last();
        insert_keeps_order(shorter, value);
        let inner = insert_descending(shorter, value);
        assert(sorted == shorter.push(sorted.last()));
        assert(all_at_least(shorter, sorted.last()));
        assert(all_at_least(inner, sorted.last()));
        assert(inner.push(sorted.last()).to_multiset() == sorted.to_multiset().insert(value));
        assert forall|bound: i32|
            #[trigger] all_at_least(sorted, bound) && value >= bound implies all_at_least(
            insert_descending(sorted, value),
            bound,
        ) by {
            assert(all_at_least(shorter, bound));
            assert(sorted[sorted.len() - 1] >= bound);
        }
    } else {
        assert forall|i: int, j: int| 0 <= i < j < sorted.push(value).len() implies sorted.push(
            value,
        )[i] >= sorted.push(value)[j] by {
            if j == sorted.len() && i < sorted.len() - 1 {
                assert(sorted[i] >= sorted.last());
            }
        }
    }
}

/// Sorting rearranges: the result is descending and holds the same values as often.
pub proof fn sorting_rearranges(values: Seq<i32>)
    ensures
        descending(sorted_descending(values)),
        sorted_descending(values).len() == values.len(),
        sorted_descending(values).to_multiset() == values.to_multiset(),
    decreases values.len(),
{
    broadcast use vstd::seq_lib::group_to_multiset_ensures;

    if values.len() > 0 {
        sorting_rearranges(values.drop_last());
        insert_keeps_order(sorted_descending(values.drop_last()), values.last());
        assert(values == values.drop_last().push(values.last()));
    }
}

proof fn inserts_commute(sorted: Seq<i32>, left: i32, right: i32)
    requires
        descending(sorted),
    ensures
        insert_descending(insert_descending(sorted, left), right) == insert_descending(
            insert_descending(sorted, right),
            left,
        ),
    decreases sorted.len(),
{
    reveal_with_fuel(insert_descending, 3);
    if sorted.len() == 0 {
        assert(seq![left].drop_last() == Seq::<i32>::empty());
        assert(seq![right].drop_last() == Seq::<i32>::empty());
        assert(insert_descending(insert_descending(sorted, left), right) =~= insert_descending(
            insert_descending(sorted, right),
            left,
        ));
    } else {
        let shorter = sorted.drop_last();
        let last = sorted.last();
        assert(sorted.push(left).drop_last() == sorted);
        assert(sorted.push(right).drop_last() == sorted);
        if left > last && right > last {
            inserts_commute(shorter, left, right);
            let with_left = insert_descending(shorter, left);
            let with_right = insert_descending(shorter, right);
            assert(with_left.push(last).drop_last() == with_left);
            assert(with_right.push(last).drop_last() == with_right);
        } else if left > last {
            let with_left = insert_descending(shorter, left);
            assert(with_left.push(last).last() == last);
            assert(insert_descending(sorted, right) == sorted.push(right));
            assert(insert_descending(with_left.push(last), right) == with_left.push(last).push(
                right,
            ));
        } else if right > last {
            let with_right = insert_descending(shorter, right);
            assert(with_right.push(last).last() == last);
            assert(insert_descending(with_right.push(last), left) == with_right.push(last).push(
                left,
            ));
        } else {
            assert(insert_descending(insert_descending(sorted, left), right) =~= insert_descending(
                insert_descending(sorted, right),
                left,
            ));
        }
    }
}

proof fn first_of_insert(sorted: Seq<i32>, value: i32, k: nat)
    requires
        descending(sorted),
    ensures
        first(insert_descending(sorted, value), k) == first(
            insert_descending(first(sorted, k), value),
            k,
        ),
    decreases sorted.len(),
{
    insert_keeps_order(sorted, value);
    if sorted.len() <= k {
    } else {
        let shorter = sorted.drop_last();
        let last = sorted.last();
        assert(first(shorter, k) == first(sorted, k));
        first_of_insert(shorter, value, k);
        insert_keeps_order(shorter, value);
        let kept = first(sorted, k);
        insert_keeps_order(kept, value);
        if value > last {
            let inner = insert_descending(shorter, value);
            assert(first(inner.push(last), k) =~= first(inner, k));
        } else {
            assert(first(sorted.push(value), k) =~= kept);
            if k > 0 {
                assert(kept.last() == sorted[k - 1]);
                assert(sorted[k - 1] >= last);
                assert(insert_descending(kept, value) == kept.push(value));
                assert(first(kept.push(value), k) =~= kept);
            } else {
                assert(first(insert_descending(kept, value), k) =~= Seq::<i32>::empty());
            }
        }
    }
}

proof fn sorted_is_fixed(sorted: Seq<i32>)
    requires
        descending(sorted),
    ensures
        sorted_descending(sorted) == sorted,
    decreases sorted.len(),
{
    if sorted.len() > 0 {
        let shorter = sorted.drop_last();
        sorted_is_fixed(shorter);
        if shorter.len() > 0 {
            assert(shorter.last() == sorted[sorted.len() - 2]);
        }
        assert(shorter.push(sorted.last()) == sorted);
        assert(seq![sorted.last()] == Seq::<i32>::empty().push(sorted.last()));
    }
}

/// Dropping all but the `k` largest of a part does not change the `k` largest of the whole.
pub proof fn largest_of_reduced_front(front: Seq<i32>, back: Seq<i32>, k: nat)
    ensures
        largest(largest(front, k) + back, k) == largest(front + back, k),
    decreases back.len(),
{
    let reduced = largest(front, k);
    sorting_rearranges(front);
    if back.len() == 0 {
        assert(reduced + back == reduced);
        assert(front + back == front);
        assert(descending(reduced));
        sorted_is_fixed(reduced);
    } else {
        let shorter = back.drop_last();
        let value = back.last();
        largest_of_reduced_front(front, shorter, k);
        sorting_rearranges(reduced + shorter);
        sorting_rearranges(front + shorter);
        assert((reduced + back).drop_last() == reduced + shorter);
        assert((front + back).drop_last() == front + shorter);
        first_of_insert(sorted_descending(reduced + shorter), value, k);
        first_of_insert(sorted_descending(front + shorter), value, k);
    }
}

proof fn sorting_ignores_sides(left: Seq<i32>, right: Seq<i32>)
    ensures
        sorted_descending(left + right) == sorted_descending(right + left),
    decreases right.len(),
{
    if right.len() == 0 {
        assert(left + right == right + left);
    } else {
        let shorter = right.drop_last();
        let value = right.last();
        sorting_ignores_sides(left, shorter);
        assert((left + right).drop_last() == left + shorter);
        // right + left is shorter + [value] + left
        sorting_swaps_middle(shorter, value, left);
        assert(shorter + (seq![value] + left) == right + left);
    }
}

proof fn sorting_swaps_middle(front: Seq<i32>, value: i32, back: Seq<i32>)
    ensures
        sorted_descending(front + (seq![value] + back)) == insert_descending(
            sorted_descending(front + back),
            value,
        ),
    decreases back.len(),
{
    if back.len() == 0 {
        assert(front + (seq![value] + back) == front.push(value));
        assert(front.push(value).drop_last() == front);
        assert(front + back == front);
    } else {
        let shorter = back.drop_last();
        sorting_swaps_middle(front, value, shorter);
        assert((front + (seq![value] + back)).drop_last() == front + (seq![value] + shorter));
        assert((front + (seq![value] + back)).last() == back.last());
        assert((front + back).drop_last() == front + shorter);
        sorting_rearranges(front + shorter);
        inserts_commute(sorted_descending(front + shorter), value, back.last());
    }
}

/// Tiles can be reduced before they are merged: the `k` largest of the union of two parts' `k`
/// largest are the `k` largest of everything.
pub proof fn largest_of_tiles(left: Seq<i32>, right: Seq<i32>, k: nat)
    ensures
        largest(largest(left, k) + largest(right, k), k) == largest(left + right, k),
{
    let reduced_right = largest(right, k);
    largest_of_reduced_front(left, reduced_right, k);
    sorting_ignores_sides(left, reduced_right);
    largest_of_reduced_front(right, left, k);
    sorting_ignores_sides(right, left);
}

/// Values that are smaller than `k` others in front of them change nothing.
pub proof fn largest_ignores_small_tail(front: Seq<i32>, back: Seq<i32>, k: nat)
    requires
        front.len() >= k,
        forall|i: int, j: int|
            0 <= i < front.len() && 0 <= j < back.len() ==> front[i] >= back[j],
    ensures
        largest(front + back, k) == largest(front, k),
    decreases back.len(),
{
    if back.len() == 0 {
        assert(front + back == front);
    } else {
        let shorter = back.drop_last();
        let value = back.last();
        largest_ignores_small_tail(front, shorter, k);
        assert((front + back).drop_last() == front + shorter);
        let sorted = sorted_descending(front + shorter);
        sorting_rearranges(front + shorter);
        sorting_rearranges(front);
        first_of_insert(sorted, value, k);
        let kept = largest(front, k);
        assert(kept.len() == k);
        assert forall|i: int| 0 <= i < kept.len() implies kept[i] >= value by {
            sorted_values_come_from(front, i);
        }
        if k > 0 {
            assert(kept.last() >= value);
            assert(insert_descending(kept, value) == kept.push(value));
            assert(first(kept.push(value), k) == kept);
        } else {
            insert_keeps_order(kept, value);
            assert(first(insert_descending(kept, value), k) == kept);
        }
    }
}

/// Every sorted value is one of the values.
pub proof fn sorted_values_come_from(values: Seq<i32>, i: int)
    requires
        0 <= i < sorted_descending(values).len(),
    ensures
        values.contains(sorted_descending(values)[i]),
{
    broadcast use vstd::seq_lib::group_to_multiset_ensures;

    sorting_rearranges(values);
    let sorted = sorted_descending(values);
    assert(sorted.contains(sorted[i]));
    assert(sorted.to_multiset().count(sorted[i]) > 0);
    assert(values.to_multiset().count(sorted[i]) > 0);
}

/// Every value that is not among the `k` largest is at most as large as any of them.
pub proof fn others_are_not_larger(values: Seq<i32>, k: nat, value: i32, i: int)
    requires
        values.contains(value),
        !largest(values, k).contains(value),
        0 <= i < largest(values, k).len(),
    ensures
        value <= largest(values, k)[i],
{
    broadcast use vstd::seq_lib::group_to_multiset_ensures;

    sorting_rearranges(values);
    let sorted = sorted_descending(values);
    assert(values.to_multiset().count(value) > 0);
    assert(sorted.contains(value));
    let at = sorted.index_of(value);
    if at < k {
        assert(largest(values, k)[at] == value);
    } else {
        assert(sorted[i] >= sorted[at]);
    }
}

fn insert(sorted: &mut Vec<i32>, value: i32)
    requires
        descending(old(sorted)@),
        old(sorted)@.len() < usize::MAX,
    ensures
        final(sorted)@ == insert_descending(old(sorted)@, value),
{
    let ghost before = sorted@;
    sorted.push(value);
    let mut at: usize = sorted.len() - 1;
    assert(before.take(at as int) == before);
    assert(before.skip(at as int) == Seq::<i32>::empty());
    assert(sorted@ == before.take(at as int).push(value) + before.skip(at as int));
    assert(insert_descending(before.take(at as int), value) + before.skip(at as int)
        == insert_descending(before, value));
    while at > 0 && sorted[at - 1] < value
        invariant
            at < sorted@.len() == before.len() + 1,
            descending(before),
            sorted@ == before.take(at as int).push(value) + before.skip(at as int),
            insert_descending(before.take(at as int), value) + before.skip(at as int)
                == insert_descending(before, value),
        decreases at,
    {
        let moved: i32 = sorted[at - 1];
        let ghost head = before.take(at as int);
        assert(moved == before[at - 1]);
        sorted.set(at, moved);
        sorted.set(at - 1, value);
        proof {
            assert(head.drop_last() == before.take(at - 1));
            assert(head.last() == moved);
            assert(insert_descending(head, value) == insert_descending(
                before.take(at - 1),
                value,
            ).push(moved));
            assert(before.skip(at - 1) == seq![moved] + before.skip(at as int));
            assert(insert_descending(before.take(at - 1), value).push(moved) + before.skip(
                at as int,
            ) == insert_descending(before.take(at - 1), value) + before.skip(at - 1));
            assert(sorted@ =~= before.take(at - 1).push(value) + before.skip(at - 1));
        }
        at = at - 1;
    }
    proof {
        let head = before.take(at as int);
        if at > 0 {
            assert(head.last() == before[at - 1]);
            assert(sorted@[at - 1] == before[at - 1]);
        }
        assert(seq![value] == Seq::<i32>::empty().push(value));
        assert(insert_descending(head, value) == head.push(value));
    }
}

/// The `k` largest values, the largest first.
pub fn top_k(values: &[i32], k: usize) -> (top: Vec<i32>)
    requires
        k < usize::MAX,
    ensures
        top@ == largest(values@, k as nat),
{
    let mut top: Vec<i32> = Vec::new();
    let mut index: usize = 0;
    assert(values@.take(0) == Seq::<i32>::empty());
    while index < values.len()
        invariant
            index <= values@.len(),
            k < usize::MAX,
            top@ == largest(values@.take(index as int), k as nat),
        decreases values@.len() - index,
    {
        let value: i32 = values[index];
        let ghost seen = values@.take(index as int);
        proof {
            sorting_rearranges(seen);
            first_of_insert(sorted_descending(seen), value, k as nat);
            assert(values@.take(index + 1).drop_last() == seen);
            assert(values@.take(index + 1).last() == value);
            insert_keeps_order(top@, value);
        }
        insert(&mut top, value);
        if top.len() > k {
            top.truncate(k);
            assert(top@ == first(insert_descending(largest(seen, k as nat), value), k as nat));
        }
        index = index + 1;
    }
    assert(values@.take(values@.len() as int) == values@);
    top
}

} // verus!
