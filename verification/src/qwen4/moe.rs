//! Expert selection.

use vstd::prelude::*;

verus! {

/// A chosen expert with the bits of its weight.
pub type ChosenExpert = (i32, u32);

/// Puts an expert behind every one of an ascending list whose number is not larger.
pub open spec fn insert_expert(sorted: Seq<ChosenExpert>, expert: ChosenExpert) -> Seq<ChosenExpert>
    decreases sorted.len(),
{
    if sorted.len() > 0 && expert.0 < sorted.last().0 {
        insert_expert(sorted.drop_last(), expert).push(sorted.last())
    } else {
        sorted.push(expert)
    }
}

/// Experts by ascending number; experts of the same number keep their order.
pub open spec fn canonical_order(experts: Seq<ChosenExpert>) -> Seq<ChosenExpert>
    decreases experts.len(),
{
    if experts.len() == 0 {
        experts
    } else {
        insert_expert(canonical_order(experts.drop_last()), experts.last())
    }
}

/// Whether expert numbers never fall from left to right.
pub open spec fn ascending(experts: Seq<ChosenExpert>) -> bool {
    forall|i: int, j: int| 0 <= i < j < experts.len() ==> experts[i].0 <= experts[j].0
}

proof fn insert_expert_keeps_order(sorted: Seq<ChosenExpert>, expert: ChosenExpert)
    requires
        ascending(sorted),
    ensures
        ascending(insert_expert(sorted, expert)),
        insert_expert(sorted, expert).to_multiset() == sorted.to_multiset().insert(expert),
        insert_expert(sorted, expert).len() == sorted.len() + 1,
        forall|i: int|
            0 <= i < insert_expert(sorted, expert).len() ==> (#[trigger] insert_expert(
                sorted,
                expert,
            )[i]).0 <= (if sorted.len() > 0 && sorted.last().0 > expert.0 {
                sorted.last().0
            } else {
                expert.0
            }),
    decreases sorted.len(),
{
    broadcast use vstd::seq_lib::group_to_multiset_ensures;

    if sorted.len() > 0 && expert.0 < sorted.last().0 {
        let shorter = sorted.drop_last();
        insert_expert_keeps_order(shorter, expert);
        assert(sorted == shorter.push(sorted.last()));
        let inner = insert_expert(shorter, expert);
        if shorter.len() > 0 {
            assert(shorter.last() == sorted[sorted.len() - 2]);
        }
        assert(inner.push(sorted.last()).to_multiset() == sorted.to_multiset().insert(expert));
    }
}

/// The canonical order rearranges the chosen experts and sorts them by number.
pub proof fn canonical_order_rearranges(experts: Seq<ChosenExpert>)
    ensures
        ascending(canonical_order(experts)),
        canonical_order(experts).to_multiset() == experts.to_multiset(),
        canonical_order(experts).len() == experts.len(),
    decreases experts.len(),
{
    broadcast use vstd::seq_lib::group_to_multiset_ensures;

    if experts.len() > 0 {
        canonical_order_rearranges(experts.drop_last());
        insert_expert_keeps_order(canonical_order(experts.drop_last()), experts.last());
        assert(experts == experts.drop_last().push(experts.last()));
    }
}

/// Sorts the chosen experts of one row by number. Every row is sorted on its own, so that experts
/// are gathered and summed in the same order whether rows are run together or one at a time.
pub fn canonicalize_expert_selection(experts: &[ChosenExpert]) -> (sorted: Vec<ChosenExpert>)
    ensures
        sorted@ == canonical_order(experts@),
{
    let mut sorted: Vec<ChosenExpert> = Vec::new();
    let mut index: usize = 0;
    let total: usize = experts.len();
    assert(experts@.take(0) == Seq::<ChosenExpert>::empty());
    while index < total
        invariant
            index <= total == experts@.len(),
            sorted@ == canonical_order(experts@.take(index as int)),
            sorted@.len() == index,
        decreases total - index,
    {
        let expert: ChosenExpert = experts[index];
        let ghost before = sorted@;
        proof {
            canonical_order_rearranges(experts@.take(index as int));
            canonical_order_rearranges(experts@.take(index + 1));
            assert(experts@.take(index + 1).drop_last() == experts@.take(index as int));
        }
        sorted.push(expert);
        let mut at: usize = index;
        assert(before.take(at as int) == before);
        assert(before.skip(at as int) == Seq::<ChosenExpert>::empty());
        assert(sorted@ == before.take(at as int).push(expert) + before.skip(at as int));
        assert(insert_expert(before.take(at as int), expert) + before.skip(at as int)
            == insert_expert(before, expert));
        while at > 0 && expert.0 < sorted[at - 1].0
            invariant
                at < sorted@.len() == before.len() + 1,
                sorted@ == before.take(at as int).push(expert) + before.skip(at as int),
                insert_expert(before.take(at as int), expert) + before.skip(at as int)
                    == insert_expert(before, expert),
            decreases at,
        {
            let moved: ChosenExpert = sorted[at - 1];
            let ghost head = before.take(at as int);
            assert(moved == before[at - 1]);
            sorted.set(at, moved);
            sorted.set(at - 1, expert);
            proof {
                assert(head.drop_last() == before.take(at - 1));
                assert(head.last() == moved);
                assert(before.skip(at - 1) == seq![moved] + before.skip(at as int));
                assert(insert_expert(before.take(at - 1), expert).push(moved) + before.skip(
                    at as int,
                ) == insert_expert(before.take(at - 1), expert) + before.skip(at - 1));
                assert(sorted@ =~= before.take(at - 1).push(expert) + before.skip(at - 1));
            }
            at = at - 1;
        }
        proof {
            let head = before.take(at as int);
            if at > 0 {
                assert(head.last() == before[at - 1]);
                assert(sorted@[at - 1] == before[at - 1]);
            }
            assert(insert_expert(head, expert) == head.push(expert));
        }
        index = index + 1;
    }
    assert(experts@.take(total as int) == experts@);
    sorted
}

} // verus!
