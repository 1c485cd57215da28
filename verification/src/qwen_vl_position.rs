//! Rotary positions of a prompt with images.

use vstd::arithmetic::div_mod::lemma_fundamental_div_mod_converse;
use vstd::prelude::*;

use crate::qwen_position::decode_position;

pub use crate::qwen_position::decode_rope_positions;

verus! {

/// Positions of every token on the temporal, height and width axes.
#[derive(Debug)]
pub struct QwenRopePositions {
    pub axes: [Vec<i32>; 3],
    /// What decoding adds to the number of cached tokens.
    pub rope_delta: i32,
}

/// Why a prompt has no positions.
#[derive(Debug, Clone, Copy, PartialEq, Eq, Structural)]
pub enum RopeIndexError {
    EmptyPrompt,
    MergeZero,
    /// There are more runs of image tokens than grids.
    RunsExceedGrids,
    GridNotDivisible,
    /// A run of image tokens does not have the length of its grid.
    RunLength { run: usize, found: usize, expected: i32 },
    /// There are more grids than runs of image tokens.
    GridsExceedRuns,
    /// The positions do not match the tokens, one for one.
    PositionCount,
}

/// Position of a token on the three axes.
pub struct Position {
    pub time: int,
    pub row: int,
    pub column: int,
}

/// Whether a token stands for part of an image or a video.
pub open spec fn is_vision(token: i32, image_token: i32, video_token: i32) -> bool {
    token == image_token || token == video_token
}

/// Tokens before the first vision token.
pub open spec fn text_run(tokens: Seq<i32>, image_token: i32, video_token: i32) -> nat
    decreases tokens.len(),
{
    if tokens.len() == 0 || is_vision(tokens[0], image_token, video_token) {
        0
    } else {
        1 + text_run(tokens.skip(1), image_token, video_token)
    }
}

/// Vision tokens before the first other token.
pub open spec fn vision_run(tokens: Seq<i32>, image_token: i32, video_token: i32) -> nat
    decreases tokens.len(),
{
    if tokens.len() == 0 || !is_vision(tokens[0], image_token, video_token) {
        0
    } else {
        1 + vision_run(tokens.skip(1), image_token, video_token)
    }
}

/// Positions of text: all axes count up together.
pub open spec fn text_positions(first: int, count: nat) -> Seq<Position> {
    Seq::new(count, |i: int| Position { time: first + i, row: first + i, column: first + i })
}

/// Number of frames, merged rows and merged columns of a grid.
pub open spec fn merged_grid(grid: (i32, i32, i32), merge: int) -> (int, int, int) {
    (grid.0 as int, grid.1 as int / merge, grid.2 as int / merge)
}

/// Tokens of a merged grid.
pub open spec fn volume(merged: (int, int, int)) -> int {
    merged.0 * merged.1 * merged.2
}

pub open spec fn all_positive(merged: (int, int, int)) -> bool {
    merged.0 > 0 && merged.1 > 0 && merged.2 > 0
}

/// Positions of an image: frame by frame, row by row.
pub open spec fn image_positions(first: int, merged: (int, int, int)) -> Seq<Position> {
    Seq::new(
        if all_positive(merged) {
            volume(merged) as nat
        } else {
            0
        },
        |k: int|
            Position {
                time: first + k / (merged.1 * merged.2),
                row: first + k / merged.2 % merged.1,
                column: first + k % merged.2,
            },
    )
}

/// The largest extent of an image: as far as positions move on.
pub open spec fn extent(merged: (int, int, int)) -> int {
    let taller = if merged.0 >= merged.1 {
        merged.0
    } else {
        merged.1
    };
    if taller >= merged.2 {
        taller
    } else {
        merged.2
    }
}

pub open spec fn divisible(grid: (i32, i32, i32), merge: int) -> bool {
    grid.1 as int % merge == 0 && grid.2 as int % merge == 0
}

/// Positions of the tokens from image `image` on, the first of them at `position`.
pub open spec fn positions_from(
    tokens: Seq<i32>,
    grids: Seq<(i32, i32, i32)>,
    merge: int,
    image_token: i32,
    video_token: i32,
    image: nat,
    position: int,
) -> Result<Seq<Position>, RopeIndexError>
    decreases tokens.len(),
{
    let text = text_run(tokens, image_token, video_token);
    let run = vision_run(tokens.skip(text as int), image_token, video_token);
    if text >= tokens.len() || run == 0 {
        if image == grids.len() {
            Ok(text_positions(position, text))
        } else {
            Err(RopeIndexError::GridsExceedRuns)
        }
    } else if image >= grids.len() {
        Err(RopeIndexError::RunsExceedGrids)
    } else if !divisible(grids[image as int], merge) {
        Err(RopeIndexError::GridNotDivisible)
    } else {
        let merged = merged_grid(grids[image as int], merge);
        if run != volume(merged) {
            Err(
                RopeIndexError::RunLength {
                    run: image as usize,
                    found: run as usize,
                    expected: volume(merged) as i32,
                },
            )
        } else {
            proof {
                runs_fit(tokens, image_token, video_token);
                runs_fit(tokens.skip(text as int), image_token, video_token);
            }
            match positions_from(
                tokens.skip((text + run) as int),
                grids,
                merge,
                image_token,
                video_token,
                image + 1,
                position + text + extent(merged),
            ) {
                Err(problem) => Err(problem),
                Ok(rest) => Ok(
                    text_positions(position, text) + image_positions(position + text, merged)
                        + rest,
                ),
            }
        }
    }
}

/// Positions of a prompt.
pub open spec fn prompt_positions(
    tokens: Seq<i32>,
    grids: Seq<(i32, i32, i32)>,
    merge: int,
    image_token: i32,
    video_token: i32,
) -> Result<Seq<Position>, RopeIndexError> {
    if tokens.len() == 0 {
        Err(RopeIndexError::EmptyPrompt)
    } else if merge == 0 {
        Err(RopeIndexError::MergeZero)
    } else {
        match positions_from(tokens, grids, merge, image_token, video_token, 0, 0) {
            Err(problem) => Err(problem),
            Ok(positions) => if positions.len() != tokens.len() {
                Err(RopeIndexError::PositionCount)
            } else {
                Ok(positions)
            },
        }
    }
}

/// Whether axes hold these positions.
pub open spec fn axes_hold(
    times: Seq<i32>,
    rows: Seq<i32>,
    columns: Seq<i32>,
    positions: Seq<Position>,
) -> bool {
    &&& times.len() == positions.len()
    &&& rows.len() == positions.len()
    &&& columns.len() == positions.len()
    &&& forall|i: int|
        0 <= i < positions.len() ==> times[i] == (#[trigger] positions[i]).time && rows[i]
            == positions[i].row && columns[i] == positions[i].column
}

/// Whether no coordinate of these positions is larger than `value`, and one equals it.
pub open spec fn is_largest(positions: Seq<Position>, value: int) -> bool {
    &&& forall|i: int|
        0 <= i < positions.len() ==> (#[trigger] positions[i]).time <= value && positions[i].row
            <= value && positions[i].column <= value
    &&& exists|i: int|
        0 <= i < positions.len() && ((#[trigger] positions[i]).time == value || positions[i].row
            == value || positions[i].column == value)
}

/// Whether the tokens of every grid can be counted with machine integers.
pub open spec fn grids_fit(grids: Seq<(i32, i32, i32)>, merge: int) -> bool {
    forall|i: int|
        0 <= i < grids.len() && divisible(#[trigger] grids[i], merge) ==> {
            let merged = merged_grid(grids[i], merge);
            &&& i32::MIN <= merged.0 * merged.1 <= i32::MAX
            &&& i32::MIN <= volume(merged) <= i32::MAX
        }
}

/// A run is part of the tokens.
pub proof fn runs_fit(tokens: Seq<i32>, image_token: i32, video_token: i32)
    ensures
        text_run(tokens, image_token, video_token) <= tokens.len(),
        vision_run(tokens, image_token, video_token) <= tokens.len(),
        text_run(tokens, image_token, video_token) < tokens.len() ==> is_vision(
            tokens[text_run(tokens, image_token, video_token) as int],
            image_token,
            video_token,
        ),
    decreases tokens.len(),
{
    if tokens.len() > 0 {
        runs_fit(tokens.skip(1), image_token, video_token);
    }
}

/// Where the tokens of an image match its grid, the image moves positions on by at least one and
/// by no more than it has tokens.
pub(crate) proof fn extent_is_bounded(merged: (int, int, int), run: int)
    requires
        run > 0,
        volume(merged) == run,
    ensures
        1 <= extent(merged) <= run,
        all_positive(merged) ==> merged.0 <= run && merged.1 <= run && merged.2 <= run,
{
    let (a, b, c) = merged;
    assert(a != 0 && b != 0 && c != 0) by (nonlinear_arith)
        requires
            a * b * c == run,
            run > 0,
    ;
    if a > 0 && b > 0 && c > 0 {
        assert(a <= run && b <= run && c <= run) by (nonlinear_arith)
            requires
                a * b * c == run,
                a > 0,
                b > 0,
                c > 0,
        ;
    } else if a > 0 {
        assert(b < 0 && c < 0) by (nonlinear_arith)
            requires
                a * b * c == run,
                run > 0,
                a > 0,
                b != 0,
                c != 0,
                !(b > 0 && c > 0),
        ;
        assert(a <= run) by (nonlinear_arith)
            requires
                a * b * c == run,
                a > 0,
                b < 0,
                c < 0,
        ;
    } else if b > 0 {
        assert(c < 0) by (nonlinear_arith)
            requires
                a * b * c == run,
                run > 0,
                a < 0,
                b > 0,
                c != 0,
        ;
        assert(b <= run) by (nonlinear_arith)
            requires
                a * b * c == run,
                a < 0,
                b > 0,
                c < 0,
        ;
    } else {
        assert(c > 0) by (nonlinear_arith)
            requires
                a * b * c == run,
                run > 0,
                a < 0,
                b < 0,
                c != 0,
        ;
        assert(c <= run) by (nonlinear_arith)
            requires
                a * b * c == run,
                a < 0,
                b < 0,
                c > 0,
        ;
    }
}

/// Length of the text before the next vision token, from `start` on.
fn leading_text(tokens: &[i32], start: usize, image_token: i32, video_token: i32) -> (count: usize)
    requires
        start <= tokens@.len(),
    ensures
        count == text_run(tokens@.skip(start as int), image_token, video_token),
        start + count <= tokens@.len(),
{
    let length: usize = tokens.len();
    let mut count: usize = 0;
    let ghost all = tokens@.skip(start as int);
    assert(all.skip(0) == all);
    while start + count < length && !(tokens[start + count] == image_token || tokens[start + count]
        == video_token)
        invariant
            length == tokens@.len(),
            start + count <= length,
            all == tokens@.skip(start as int),
            text_run(all, image_token, video_token) == count + text_run(
                all.skip(count as int),
                image_token,
                video_token,
            ),
        decreases length - count,
    {
        proof {
            assert(all.skip(count as int)[0] == tokens@[start + count]);
            assert(all.skip(count as int).skip(1) == all.skip(count + 1));
        }
        count = count + 1;
    }
    proof {
        if start + count < length {
            assert(all.skip(count as int)[0] == tokens@[start + count]);
        }
    }
    count
}

/// Length of the run of vision tokens from `start` on.
fn leading_vision(tokens: &[i32], start: usize, image_token: i32, video_token: i32) -> (count:
    usize)
    requires
        start <= tokens@.len(),
    ensures
        count == vision_run(tokens@.skip(start as int), image_token, video_token),
        start + count <= tokens@.len(),
{
    let length: usize = tokens.len();
    let mut count: usize = 0;
    let ghost all = tokens@.skip(start as int);
    assert(all.skip(0) == all);
    while start + count < length && (tokens[start + count] == image_token || tokens[start + count]
        == video_token)
        invariant
            length == tokens@.len(),
            start + count <= length,
            all == tokens@.skip(start as int),
            vision_run(all, image_token, video_token) == count + vision_run(
                all.skip(count as int),
                image_token,
                video_token,
            ),
        decreases length - count,
    {
        proof {
            assert(all.skip(count as int)[0] == tokens@[start + count]);
            assert(all.skip(count as int).skip(1) == all.skip(count + 1));
        }
        count = count + 1;
    }
    proof {
        if start + count < length {
            assert(all.skip(count as int)[0] == tokens@[start + count]);
        }
    }
    count
}

/// Appends the positions of text.
fn push_text(
    times: &mut Vec<i32>,
    rows: &mut Vec<i32>,
    columns: &mut Vec<i32>,
    first: i32,
    count: usize,
    Ghost(positions): Ghost<Seq<Position>>,
)
    requires
        axes_hold(old(times)@, old(rows)@, old(columns)@, positions),
        0 <= first,
        first + count <= i32::MAX,
    ensures
        axes_hold(
            final(times)@,
            final(rows)@,
            final(columns)@,
            positions + text_positions(first as int, count as nat),
        ),
{
    let mut done: usize = 0;
    assert(positions + text_positions(first as int, 0) == positions);
    while done < count
        invariant
            done <= count,
            0 <= first,
            first + count <= i32::MAX,
            axes_hold(
                times@,
                rows@,
                columns@,
                positions + text_positions(first as int, done as nat),
            ),
        decreases count - done,
    {
        let position: i32 = first + done as i32;
        proof {
            let before = positions + text_positions(first as int, done as nat);
            let after = positions + text_positions(first as int, (done + 1) as nat);
            assert(after == before.push(
                Position {
                    time: position as int,
                    row: position as int,
                    column: position as int,
                },
            ));
        }
        times.push(position);
        rows.push(position);
        columns.push(position);
        done = done + 1;
    }
}

/// Frame, row and column of token `k` of an image.
pub(crate) proof fn flat_index(k: int, time: int, row: int, column: int, rows: int, columns: int)
    requires
        k == (time * rows + row) * columns + column,
        0 <= time,
        0 <= row < rows,
        0 <= column < columns,
    ensures
        k / columns == time * rows + row,
        k % columns == column,
        k / columns % rows == row,
        k / (rows * columns) == time,
{
    lemma_fundamental_div_mod_converse(k, columns, time * rows + row, column);
    lemma_fundamental_div_mod_converse(time * rows + row, rows, time, row);
    assert(0 <= row * columns + column < rows * columns) by (nonlinear_arith)
        requires
            0 <= row < rows,
            0 <= column < columns,
    ;
    assert(k == time * (rows * columns) + (row * columns + column)) by (nonlinear_arith)
        requires
            k == (time * rows + row) * columns + column,
    ;
    lemma_fundamental_div_mod_converse(k, rows * columns, time, row * columns + column);
}

/// Appends the positions of an image.
fn push_image(
    times: &mut Vec<i32>,
    rows: &mut Vec<i32>,
    columns: &mut Vec<i32>,
    first: i32,
    merged: (i32, i32, i32),
    count: usize,
    Ghost(positions): Ghost<Seq<Position>>,
)
    requires
        axes_hold(old(times)@, old(rows)@, old(columns)@, positions),
        0 <= first,
        0 < count,
        first + count <= i32::MAX,
        volume((merged.0 as int, merged.1 as int, merged.2 as int)) == count,
    ensures
        axes_hold(
            final(times)@,
            final(rows)@,
            final(columns)@,
            positions + image_positions(
                first as int,
                (merged.0 as int, merged.1 as int, merged.2 as int),
            ),
        ),
{
    let ghost shape = (merged.0 as int, merged.1 as int, merged.2 as int);
    let ghost image = image_positions(first as int, shape);
    if !(merged.0 > 0 && merged.1 > 0 && merged.2 > 0) {
        assert(positions + image == positions);
        return ;
    }
    let mut time: i32 = 0;
    let mut row: i32 = 0;
    let mut column: i32 = 0;
    let mut done: usize = 0;
    proof {
        extent_is_bounded(shape, count as int);
        assert(positions + image.take(0) == positions);
        assert((0 * shape.1 + 0) * shape.2 + 0 == 0) by (nonlinear_arith);
    }
    while done < count
        invariant
            done <= count,
            0 <= first,
            first + count <= i32::MAX,
            shape == (merged.0 as int, merged.1 as int, merged.2 as int),
            image == image_positions(first as int, shape),
            all_positive(shape),
            volume(shape) == count,
            shape.0 <= count && shape.1 <= count && shape.2 <= count,
            done == (time * shape.1 + row) * shape.2 + column,
            0 <= time <= shape.0,
            0 <= row < shape.1,
            0 <= column < shape.2,
            axes_hold(times@, rows@, columns@, positions + image.take(done as int)),
        decreases count - done,
    {
        proof {
            assert(time < shape.0) by (nonlinear_arith)
                requires
                    done == (time * shape.1 + row) * shape.2 + column,
                    done < shape.0 * shape.1 * shape.2,
                    0 <= time,
                    0 <= row < shape.1,
                    0 <= column < shape.2,
            ;
            flat_index(
                done as int,
                time as int,
                row as int,
                column as int,
                shape.1,
                shape.2,
            );
            assert(image.take(done + 1) == image.take(done as int).push(image[done as int]));
            assert(positions + image.take(done + 1) == (positions + image.take(done as int)).push(
                image[done as int],
            ));
        }
        times.push(first + time);
        rows.push(first + row);
        columns.push(first + column);
        let ghost (old_time, old_row, old_column) = (time as int, row as int, column as int);
        column = column + 1;
        if column == merged.2 {
            column = 0;
            row = row + 1;
            if row == merged.1 {
                row = 0;
                time = time + 1;
            }
        }
        proof {
            assert(done + 1 == (time * shape.1 + row) * shape.2 + column) by (nonlinear_arith)
                requires
                    done == (old_time * shape.1 + old_row) * shape.2 + old_column,
                    (time == old_time && row == old_row && column == old_column + 1) || (time
                        == old_time && row == old_row + 1 && column == 0 && old_column + 1
                        == shape.2) || (time == old_time + 1 && row == 0 && column == 0
                        && old_column + 1 == shape.2 && old_row + 1 == shape.1),
            ;
        }
        done = done + 1;
    }
    assert(image.take(done as int) == image);
}

/// The largest coordinate.
fn largest(
    times: &Vec<i32>,
    rows: &Vec<i32>,
    columns: &Vec<i32>,
    Ghost(positions): Ghost<Seq<Position>>,
) -> (value: i32)
    requires
        axes_hold(times@, rows@, columns@, positions),
        positions.len() > 0,
    ensures
        is_largest(positions, value as int),
{
    let mut value: i32 = times[0];
    let mut index: usize = 0;
    assert(positions[0].time == value);
    while index < times.len()
        invariant
            axes_hold(times@, rows@, columns@, positions),
            positions.len() > 0,
            index <= times@.len(),
            forall|i: int|
                0 <= i < index ==> (#[trigger] positions[i]).time <= value && positions[i].row
                    <= value && positions[i].column <= value,
            exists|i: int|
                0 <= i < positions.len() && ((#[trigger] positions[i]).time == value
                    || positions[i].row == value || positions[i].column == value),
        decreases times@.len() - index,
    {
        let ghost position = positions[index as int];
        if times[index] > value {
            value = times[index];
            assert(positions[index as int].time == value);
        }
        if rows[index] > value {
            value = rows[index];
            assert(positions[index as int].row == value);
        }
        if columns[index] > value {
            value = columns[index];
            assert(positions[index as int].column == value);
        }
        index = index + 1;
    }
    value
}

/// Every coordinate is at least `position` and less than `position` plus the number of tokens.
pub proof fn positions_are_bounded(
    tokens: Seq<i32>,
    grids: Seq<(i32, i32, i32)>,
    merge: int,
    image_token: i32,
    video_token: i32,
    image: nat,
    position: int,
)
    requires
        merge > 0,
        positions_from(tokens, grids, merge, image_token, video_token, image, position) is Ok,
    ensures
        ({
            let positions = positions_from(
                tokens,
                grids,
                merge,
                image_token,
                video_token,
                image,
                position,
            )->Ok_0;
            &&& positions.len() <= tokens.len()
            &&& forall|i: int|
                0 <= i < positions.len() ==> within(
                    #[trigger] positions[i],
                    position,
                    position + tokens.len(),
                )
        }),
    decreases tokens.len(),
{
    let text = text_run(tokens, image_token, video_token);
    let run = vision_run(tokens.skip(text as int), image_token, video_token);
    runs_fit(tokens, image_token, video_token);
    runs_fit(tokens.skip(text as int), image_token, video_token);
    let positions = positions_from(
        tokens,
        grids,
        merge,
        image_token,
        video_token,
        image,
        position,
    )->Ok_0;
    if !(text >= tokens.len() || run == 0) {
        let merged = merged_grid(grids[image as int], merge);
        extent_is_bounded(merged, run as int);
        let next = position + text + extent(merged);
        positions_are_bounded(
            tokens.skip((text + run) as int),
            grids,
            merge,
            image_token,
            video_token,
            image + 1,
            next,
        );
        let rest = positions_from(
            tokens.skip((text + run) as int),
            grids,
            merge,
            image_token,
            video_token,
            image + 1,
            next,
        )->Ok_0;
        let front = text_positions(position, text);
        let middle = image_positions(position + text, merged);
        assert(positions == front + middle + rest);
        assert forall|i: int| 0 <= i < positions.len() implies within(
            #[trigger] positions[i],
            position,
            position + tokens.len(),
        ) by {
            if i < front.len() {
                assert(positions[i] == front[i]);
            } else if i < front.len() + middle.len() {
                let k = i - front.len();
                assert(positions[i] == middle[k]);
                image_is_bounded(merged, k);
            } else {
                assert(positions[i] == rest[i - front.len() - middle.len()]);
            }
        }
    }
}

/// Whether all coordinates lie from `low` up to, excluding, `high`.
pub open spec fn within(position: Position, low: int, high: int) -> bool {
    &&& low <= position.time < high
    &&& low <= position.row < high
    &&& low <= position.column < high
}

/// Frame, row and column of a token lie inside the image.
pub(crate) proof fn image_is_bounded(merged: (int, int, int), k: int)
    requires
        all_positive(merged),
        0 <= k < volume(merged),
    ensures
        0 <= k / (merged.1 * merged.2) < merged.0,
        0 <= k / merged.2 % merged.1 < merged.1,
        0 <= k % merged.2 < merged.2,
        merged.0 <= volume(merged) && merged.1 <= volume(merged) && merged.2 <= volume(merged),
{
    let (a, b, c) = merged;
    extent_is_bounded(merged, volume(merged));
    assert(b * c > 0) by (nonlinear_arith)
        requires
            b > 0,
            c > 0,
    ;
    assert(a * b * c == a * (b * c)) by (nonlinear_arith);
    vstd::arithmetic::div_mod::lemma_multiply_divide_lt(k, b * c, a);
    vstd::arithmetic::div_mod::lemma_div_pos_is_pos(k, b * c);
    vstd::arithmetic::div_mod::lemma_mod_bound(k / c, b);
    vstd::arithmetic::div_mod::lemma_mod_bound(k, c);
}

/// Computes the positions of a prompt with images.
pub fn compute_rope_index(
    tokens: &[i32],
    grids: &[(i32, i32, i32)],
    spatial_merge_size: usize,
    image_token_id: i32,
    video_token_id: i32,
) -> (result: Result<QwenRopePositions, RopeIndexError>)
    requires
        tokens@.len() <= i32::MAX,
        spatial_merge_size <= i32::MAX,
        spatial_merge_size > 0 ==> grids_fit(grids@, spatial_merge_size as int),
    ensures
        match result {
            Ok(positions) => {
                let expected = prompt_positions(
                    tokens@,
                    grids@,
                    spatial_merge_size as int,
                    image_token_id,
                    video_token_id,
                );
                &&& expected is Ok
                &&& axes_hold(
                    positions.axes[0]@,
                    positions.axes[1]@,
                    positions.axes[2]@,
                    expected->Ok_0,
                )
                &&& is_largest(expected->Ok_0, positions.rope_delta + tokens@.len() - 1)
            },
            Err(problem) => prompt_positions(
                tokens@,
                grids@,
                spatial_merge_size as int,
                image_token_id,
                video_token_id,
            ) == Err::<Seq<Position>, RopeIndexError>(problem),
        },
{
    if tokens.len() == 0 {
        return Err(RopeIndexError::EmptyPrompt);
    }
    if spatial_merge_size == 0 {
        return Err(RopeIndexError::MergeZero);
    }
    let merge: i32 = spatial_merge_size as i32;
    let length: usize = tokens.len();
    let ghost whole = positions_from(
        tokens@,
        grids@,
        merge as int,
        image_token_id,
        video_token_id,
        0,
        0,
    );
    let mut times: Vec<i32> = Vec::new();
    let mut rows: Vec<i32> = Vec::new();
    let mut columns: Vec<i32> = Vec::new();
    let ghost mut held: Seq<Position> = Seq::empty();
    let mut image: usize = 0;
    let mut start: usize = 0;
    let mut position: i32 = 0;
    proof {
        assert(tokens@.skip(0) == tokens@);
        if whole is Ok {
            assert(held + whole->Ok_0 == whole->Ok_0);
        }
    }
    loop
        invariant_except_break
            held.len() <= start,
            whole == (match positions_from(
                tokens@.skip(start as int),
                grids@,
                merge as int,
                image_token_id,
                video_token_id,
                image as nat,
                position as int,
            ) {
                Ok(rest) => Ok::<Seq<Position>, RopeIndexError>(held + rest),
                Err(problem) => Err(problem),
            }),
        invariant
            length == tokens@.len(),
            0 < length <= i32::MAX,
            merge == spatial_merge_size,
            merge > 0,
            grids_fit(grids@, merge as int),
            start <= length,
            image <= grids@.len(),
            0 <= position <= start,
            axes_hold(times@, rows@, columns@, held),
            whole == positions_from(
                tokens@,
                grids@,
                merge as int,
                image_token_id,
                video_token_id,
                0,
                0,
            ),
        ensures
            length == tokens@.len(),
            merge == spatial_merge_size,
            whole == positions_from(
                tokens@,
                grids@,
                merge as int,
                image_token_id,
                video_token_id,
                0,
                0,
            ),
            whole == (if image == grids@.len() {
                Ok::<Seq<Position>, RopeIndexError>(held)
            } else {
                Err(RopeIndexError::GridsExceedRuns)
            }),
            axes_hold(times@, rows@, columns@, held),
        decreases length - start,
    {
        let ghost rest = tokens@.skip(start as int);
        let ghost entry = held;
        let text: usize = leading_text(tokens, start, image_token_id, video_token_id);
        let vision_start: usize = start + text;
        let run: usize = leading_vision(tokens, vision_start, image_token_id, video_token_id);
        proof {
            assert(rest.skip(text as int) == tokens@.skip(vision_start as int));
            runs_fit(rest, image_token_id, video_token_id);
        }
        push_text(&mut times, &mut rows, &mut columns, position, text, Ghost(held));
        proof {
            held = held + text_positions(position as int, text as nat);
        }
        if vision_start == length {
            break ;
        }
        position = position + text as i32;
        if image >= grids.len() {
            return Err(RopeIndexError::RunsExceedGrids);
        }
        let (temporal, height, width): (i32, i32, i32) = grids[image];
        let ghost merged = merged_grid(grids@[image as int], merge as int);
        assert(i32::MIN <= height as int / merge as int <= i32::MAX && i32::MIN <= width as int
            / merge as int <= i32::MAX) by (nonlinear_arith)
            requires
                merge > 0,
                i32::MIN <= height <= i32::MAX,
                i32::MIN <= width <= i32::MAX,
        ;
        assert(0 <= height as int % merge as int <= i32::MAX && 0 <= width as int % merge as int
            <= i32::MAX) by (nonlinear_arith)
            requires
                0 < merge <= i32::MAX,
        ;
        let (height_left, width_left): (Option<i32>, Option<i32>) = (
            height.checked_rem_euclid(merge),
            width.checked_rem_euclid(merge),
        );
        let (merged_height, merged_width): (i32, i32) = match (
            height.checked_div_euclid(merge),
            width.checked_div_euclid(merge),
        ) {
            (Some(merged_height), Some(merged_width)) => (merged_height, merged_width),
            _ => {
                assert(false);
                (0, 0)
            },
        };
        if !(height_left == Some(0) && width_left == Some(0)) {
            return Err(RopeIndexError::GridNotDivisible);
        }
        assert(divisible(grids@[image as int], merge as int));
        let expected: i32 = temporal * merged_height * merged_width;
        assert(expected == volume(merged));
        if expected < 0 || run != expected as usize {
            return Err(RopeIndexError::RunLength { run: image, found: run, expected });
        }
        proof {
            extent_is_bounded(merged, run as int);
        }
        push_image(
            &mut times,
            &mut rows,
            &mut columns,
            position,
            (temporal, merged_height, merged_width),
            run,
            Ghost(held),
        );
        let taller: i32 = if temporal >= merged_height {
            temporal
        } else {
            merged_height
        };
        let step: i32 = if taller >= merged_width {
            taller
        } else {
            merged_width
        };
        assert(step == extent(merged));
        proof {
            let image_part = image_positions(position as int, merged);
            assert(rest.skip(text + run) == tokens@.skip(vision_start + run));
            let text_part = text_positions(position - text, text as nat);
            held = held + image_part;
            if let Ok(tail) = positions_from(
                tokens@.skip(vision_start + run),
                grids@,
                merge as int,
                image_token_id,
                video_token_id,
                (image + 1) as nat,
                position + step,
            ) {
                assert(held + tail == entry + (text_part + image_part + tail));
            }
        }
        position = position + step;
        image = image + 1;
        start = vision_start + run;
    }
    if image != grids.len() {
        return Err(RopeIndexError::GridsExceedRuns);
    }
    if times.len() != length || rows.len() != length || columns.len() != length {
        return Err(RopeIndexError::PositionCount);
    }
    proof {
        positions_are_bounded(
            tokens@,
            grids@,
            merge as int,
            image_token_id,
            video_token_id,
            0,
            0,
        );
    }
    let max_position: i32 = largest(&times, &rows, &columns, Ghost(held));
    let rope_delta: i32 = max_position + 1 - length as i32;
    Ok(QwenRopePositions { axes: [times, rows, columns], rope_delta })
}

/// Decoding goes on right after the largest position of the prompt. Images take up no more
/// positions than tokens, so that the delta is never positive.
pub proof fn decoding_follows_prompt(
    tokens: Seq<i32>,
    grids: Seq<(i32, i32, i32)>,
    merge: int,
    image_token: i32,
    video_token: i32,
    rope_delta: int,
)
    requires
        merge >= 0,
        prompt_positions(tokens, grids, merge, image_token, video_token) is Ok,
        is_largest(
            prompt_positions(tokens, grids, merge, image_token, video_token)->Ok_0,
            rope_delta + tokens.len() - 1,
        ),
    ensures
        -tokens.len() < rope_delta <= 0,
        forall|i: int|
            0 <= i < tokens.len() ==> within(
                #[trigger] prompt_positions(
                    tokens,
                    grids,
                    merge,
                    image_token,
                    video_token,
                )->Ok_0[i],
                0,
                decode_position(tokens.len() as int, rope_delta, 0),
            ),
{
    positions_are_bounded(tokens, grids, merge, image_token, video_token, 0, 0);
    let positions = prompt_positions(tokens, grids, merge, image_token, video_token)->Ok_0;
    let largest = rope_delta + tokens.len() - 1;
    let i = choose|i: int|
        0 <= i < positions.len() && ((#[trigger] positions[i]).time == largest || positions[i].row
            == largest || positions[i].column == largest);
    assert(within(positions[i], 0, tokens.len() as int));
}

/// A prompt without images counts its tokens on all axes.
pub proof fn text_counts_tokens(tokens: Seq<i32>, merge: int, image_token: i32, video_token: i32)
    requires
        tokens.len() > 0,
        merge > 0,
        forall|i: int|
            0 <= i < tokens.len() ==> !is_vision(#[trigger] tokens[i], image_token, video_token),
    ensures
        prompt_positions(tokens, Seq::empty(), merge, image_token, video_token) == Ok::<
            Seq<Position>,
            RopeIndexError,
        >(text_positions(0, tokens.len())),
{
    runs_fit(tokens, image_token, video_token);
}

} // verus!
