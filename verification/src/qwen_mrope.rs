//! Interleaving of the temporal, height and width axes in rotary embeddings.

use vstd::prelude::*;

verus! {

/// The axis that rotates pair `column`: the sections of the later axes take every third column
/// from their own number on, up to three times their length. Axis zero takes the rest.
pub open spec fn interleaved_axis(sections: Seq<i32>, column: int) -> int
    decreases sections.len(),
{
    if sections.len() <= 1 {
        0
    } else {
        let axis = sections.len() - 1;
        if takes_column(axis, sections.last() as int, column) {
            axis
        } else {
            interleaved_axis(sections.drop_last(), column)
        }
    }
}

/// Whether an axis whose section has this length claims a column.
pub open spec fn takes_column(axis: int, section_length: int, column: int) -> bool {
    axis <= column < section_length * 3 && (column - axis) % 3 == 0
}

/// The axis of every pair of rotated dimensions.
pub fn interleave(half_dim: usize, sections: &[i32]) -> (dimensions: Vec<i32>)
    requires
        half_dim <= i32::MAX,
        sections@.len() <= i32::MAX,
        forall|i: int| 0 <= i < sections@.len() ==> #[trigger] sections@[i] * 3 <= i32::MAX - 3,
        forall|i: int| 0 <= i < sections@.len() ==> #[trigger] sections@[i] * 3 >= i32::MIN,
    ensures
        dimensions@.len() == half_dim,
        forall|column: int|
            0 <= column < half_dim ==> #[trigger] dimensions@[column] == interleaved_axis(
                sections@,
                column,
            ),
{
    let mut dimensions: Vec<i32> = Vec::new();
    let mut filled: usize = 0;
    while filled < half_dim
        invariant
            filled <= half_dim,
            dimensions@.len() == filled,
            forall|column: int| 0 <= column < filled ==> #[trigger] dimensions@[column] == 0,
        decreases half_dim - filled,
    {
        dimensions.push(0);
        filled = filled + 1;
    }
    let count: usize = sections.len();
    let mut index: usize = 1;
    if count == 0 {
        return dimensions;
    }
    while index < count
        invariant
            1 <= index <= count,
            count == sections@.len(),
            count <= i32::MAX,
            half_dim <= i32::MAX,
            dimensions@.len() == half_dim,
            forall|i: int| 0 <= i < sections@.len() ==> #[trigger] sections@[i] * 3 <= i32::MAX - 3,
            forall|i: int| 0 <= i < sections@.len() ==> #[trigger] sections@[i] * 3 >= i32::MIN,
            forall|column: int|
                0 <= column < half_dim ==> #[trigger] dimensions@[column] == interleaved_axis(
                    sections@.take(index as int),
                    column,
                ),
        decreases count - index,
    {
        let source: i32 = index as i32;
        let section_length: i32 = sections[index];
        let limit: i32 = section_length * 3;
        let ghost before = dimensions@;
        let mut column: i32 = source;
        while column < limit
            invariant
                0 < source <= column,
                limit == section_length * 3,
                limit <= i32::MAX - 3,
                half_dim <= i32::MAX,
                (column - source) % 3 == 0,
                dimensions@.len() == half_dim == before.len(),
                forall|other: int|
                    0 <= other < half_dim ==> #[trigger] dimensions@[other] == (if other < column
                        && takes_column(source as int, section_length as int, other) {
                        source
                    } else {
                        before[other]
                    }),
            decreases limit - column + 3,
        {
            if (column as usize) < half_dim {
                dimensions.set(column as usize, source);
            }
            column = column + 3;
        }
        proof {
            let front = sections@.take(index as int);
            let longer = sections@.take(index + 1);
            assert(longer.drop_last() == front);
            assert(longer.last() == section_length);
            assert forall|other: int| 0 <= other < half_dim implies #[trigger] dimensions@[other]
                == interleaved_axis(longer, other) by {
                assert(before[other] == interleaved_axis(front, other));
            }
        }
        index = index + 1;
    }
    assert(sections@.take(index as int) == sections@);
    dimensions
}

/// With sections of eleven, eleven and ten, thirty-two pairs are dealt out in turn: temporal,
/// height, width, temporal, and so on.
pub proof fn default_sections_take_turns(column: int)
    requires
        0 <= column < 32,
    ensures
        interleaved_axis(seq![11i32, 11i32, 10i32], column) == if column == 31 {
            1
        } else {
            column % 3
        },
{
    let all = seq![11i32, 11i32, 10i32];
    assert(all.drop_last() == seq![11i32, 11i32]);
    assert(all.drop_last().drop_last() == seq![11i32]);
    reveal_with_fuel(interleaved_axis, 3);
}

/// With sections for three axes, height takes the columns that leave one when divided by three, width
/// those that leave two, each up to three times its section; everything else is temporal.
pub proof fn three_sections_take_every_third_column(
    temporal: i32,
    height: i32,
    width: i32,
    column: int,
)
    requires
        0 <= column,
    ensures
        interleaved_axis(seq![temporal, height, width], column) == if column % 3 == 1 && column < 3
            * height {
            1
        } else if column % 3 == 2 && column < 3 * width {
            2
        } else {
            0int
        },
{
    let all = seq![temporal, height, width];
    assert(all.drop_last() =~= seq![temporal, height]);
    assert(all.drop_last().drop_last() =~= seq![temporal]);
    reveal_with_fuel(interleaved_axis, 3);
}

/// The ranges of the two halves of a rotated axis, in the order in which they are joined: the
/// second half, negated, then the first.
pub fn rotate_half(width: i32) -> (halves: ((i32, i32), (i32, i32)))
    requires
        width >= 0,
    ensures
        halves.0 == ((width as int / 2) as i32, width),
        halves.1 == (0i32, (width as int / 2) as i32),
{
    let half: i32 = width / 2;
    ((half, width), (0, half))
}

} // verus!
