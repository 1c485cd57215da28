//! Expansion of image placeholders in a rendered prompt.

use vstd::prelude::*;

verus! {

/// What an expansion did.
#[derive(Debug, Clone, Copy, PartialEq, Eq, Structural)]
pub struct ExpandedImageTokens {
    pub image_blocks: usize,
    pub total_image_tokens: usize,
}

/// Why placeholders cannot be expanded.
#[derive(Debug, Clone, Copy, PartialEq, Eq, Structural)]
pub enum ImageTokenError {
    EmptyPrompt,
    EmptyGrids,
    MergeZero,
    MergeTooLarge,
    /// This grid has a dimension that is not positive.
    GridNotPositive(usize),
    /// This grid is not divisible by the merge size.
    GridNotDivisible(usize),
    /// The tokens of this grid cannot be counted.
    GridTooLarge(usize),
    PlaceholderCount { placeholders: usize, images: usize },
    VisionEndOverflow,
    /// This placeholder does not stand between vision markers.
    NotFramed(usize),
}

/// Tokens of an image whose patches are merged in squares of this side.
pub open spec fn merged_count(grid: (i32, i32, i32), merge: int) -> int {
    grid.0 * (grid.1 as int / merge) * (grid.2 as int / merge)
}

/// The problem of grid `index`.
pub open spec fn grid_problem(grid: (i32, i32, i32), merge: int, index: usize) -> Option<
    ImageTokenError,
> {
    if !(grid.0 > 0 && grid.1 > 0 && grid.2 > 0) {
        Some(ImageTokenError::GridNotPositive(index))
    } else if !(grid.1 as int % merge == 0 && grid.2 as int % merge == 0) {
        Some(ImageTokenError::GridNotDivisible(index))
    } else if merged_count(grid, merge) > i32::MAX {
        Some(ImageTokenError::GridTooLarge(index))
    } else {
        None
    }
}

/// The first problem among grids.
pub open spec fn grids_problem(grids: Seq<(i32, i32, i32)>, merge: int) -> Option<ImageTokenError>
    decreases grids.len(),
{
    if grids.len() == 0 {
        None
    } else {
        match grids_problem(grids.drop_last(), merge) {
            Some(problem) => Some(problem),
            None => grid_problem(grids.last(), merge, (grids.len() - 1) as usize),
        }
    }
}

/// Tokens of each image.
pub open spec fn merged_counts(grids: Seq<(i32, i32, i32)>, merge: int) -> Seq<int> {
    grids.map_values(|grid: (i32, i32, i32)| merged_count(grid, merge))
}

/// Sum of counts.
pub open spec fn total_of(counts: Seq<int>) -> int
    decreases counts.len(),
{
    if counts.len() == 0 {
        0
    } else {
        total_of(counts.drop_last()) + counts.last()
    }
}

/// How often a token stands in a sequence.
pub open spec fn occurrences(tokens: Seq<i32>, token: i32) -> nat
    decreases tokens.len(),
{
    if tokens.len() == 0 {
        0
    } else {
        occurrences(tokens.drop_last(), token) + if tokens.last() == token {
            1nat
        } else {
            0nat
        }
    }
}

/// Whether the token at `at` stands between a start marker and an end marker.
pub open spec fn framed(tokens: Seq<i32>, at: int, vision_start: i32) -> bool {
    &&& 0 < at
    &&& at + 1 < tokens.len()
    &&& tokens[at - 1] == vision_start
    &&& tokens[at + 1] == vision_start + 1
}

/// Which placeholder among the first `count` tokens is the first that is not framed.
pub open spec fn first_unframed(
    tokens: Seq<i32>,
    count: nat,
    vision_start: i32,
    image_token: i32,
) -> Option<nat>
    decreases count,
{
    if count == 0 {
        None
    } else {
        match first_unframed(tokens, (count - 1) as nat, vision_start, image_token) {
            Some(index) => Some(index),
            None => if tokens[count - 1] == image_token && !framed(tokens, count - 1, vision_start) {
                Some(occurrences(tokens.take(count - 1), image_token))
            } else {
                None
            },
        }
    }
}

/// The first reason not to expand.
pub open spec fn expansion_problem(
    tokens: Seq<i32>,
    grids: Seq<(i32, i32, i32)>,
    merge: int,
    vision_start: i32,
    image_token: i32,
) -> Option<ImageTokenError> {
    if tokens.len() == 0 {
        Some(ImageTokenError::EmptyPrompt)
    } else if grids.len() == 0 {
        Some(ImageTokenError::EmptyGrids)
    } else if merge == 0 {
        Some(ImageTokenError::MergeZero)
    } else if merge > i32::MAX {
        Some(ImageTokenError::MergeTooLarge)
    } else if grids_problem(grids, merge) is Some {
        grids_problem(grids, merge)
    } else if occurrences(tokens, image_token) != grids.len() {
        Some(
            ImageTokenError::PlaceholderCount {
                placeholders: occurrences(tokens, image_token) as usize,
                images: grids.len() as usize,
            },
        )
    } else if vision_start == i32::MAX {
        Some(ImageTokenError::VisionEndOverflow)
    } else {
        match first_unframed(tokens, tokens.len(), vision_start, image_token) {
            Some(index) => Some(ImageTokenError::NotFramed(index as usize)),
            None => None,
        }
    }
}

/// A prompt in which placeholder `k` stands `counts[k]` times.
pub open spec fn expanded(tokens: Seq<i32>, counts: Seq<int>, image_token: i32) -> Seq<i32>
    decreases tokens.len(),
{
    if tokens.len() == 0 {
        Seq::empty()
    } else {
        let front = expanded(tokens.drop_last(), counts, image_token);
        if tokens.last() == image_token {
            front + repeated(
                image_token,
                counts[occurrences(tokens.drop_last(), image_token) as int],
            )
        } else {
            front.push(tokens.last())
        }
    }
}

/// A token, `times` times.
pub open spec fn repeated(token: i32, times: int) -> Seq<i32> {
    Seq::new(times as nat, |i: int| token)
}

/// A prefix has no more occurrences than the whole.
pub(crate) proof fn prefix_has_fewer(tokens: Seq<i32>, token: i32, count: int)
    requires
        0 <= count <= tokens.len(),
    ensures
        occurrences(tokens.take(count), token) <= occurrences(tokens, token) <= tokens.len(),
        count < tokens.len() && tokens[count] == token ==> occurrences(tokens.take(count), token)
            < occurrences(tokens, token),
    decreases tokens.len(),
{
    if tokens.len() == 0 {
        assert(tokens.take(count) == tokens);
    } else if count == tokens.len() {
        assert(tokens.take(count) == tokens);
        prefix_has_fewer(tokens.drop_last(), token, tokens.len() - 1);
    } else {
        assert(tokens.drop_last().take(count) == tokens.take(count));
        prefix_has_fewer(tokens.drop_last(), token, count);
        if count == tokens.len() - 1 {
            assert(tokens.take(count) == tokens.drop_last());
        }
    }
}

/// A prefix of grids without problem adds up to no more than all of them.
proof fn prefix_total_is_smaller(counts: Seq<int>, count: int)
    requires
        0 <= count <= counts.len(),
        forall|i: int| 0 <= i < counts.len() ==> #[trigger] counts[i] >= 0,
    ensures
        0 <= total_of(counts.take(count)) <= total_of(counts),
        count < counts.len() ==> total_of(counts.take(count)) + counts[count] <= total_of(counts),
    decreases counts.len(),
{
    if counts.len() == 0 {
        assert(counts.take(count) == counts);
    } else if count == counts.len() {
        assert(counts.take(count) == counts);
        prefix_total_is_smaller(counts.drop_last(), counts.len() - 1);
    } else {
        assert(counts.drop_last().take(count) == counts.take(count));
        prefix_total_is_smaller(counts.drop_last(), count);
        if count == counts.len() - 1 {
            assert(counts.take(count) == counts.drop_last());
        }
    }
}

/// Once some grids have a problem, all of them have the same first problem.
proof fn grid_problem_stays(grids: Seq<(i32, i32, i32)>, merge: int, count: int)
    requires
        0 <= count <= grids.len(),
        grids_problem(grids.take(count), merge) is Some,
    ensures
        grids_problem(grids, merge) == grids_problem(grids.take(count), merge),
    decreases grids.len() - count,
{
    if count == grids.len() {
        assert(grids.take(count) == grids);
    } else {
        assert(grids.take(count + 1).drop_last() == grids.take(count));
        grid_problem_stays(grids, merge, count + 1);
    }
}

/// Once a placeholder is not framed, the same one is the first for the whole prompt.
proof fn unframed_stays(
    tokens: Seq<i32>,
    count: nat,
    all: nat,
    vision_start: i32,
    image_token: i32,
)
    requires
        count <= all,
        first_unframed(tokens, count, vision_start, image_token) is Some,
    ensures
        first_unframed(tokens, all, vision_start, image_token) == first_unframed(
            tokens,
            count,
            vision_start,
            image_token,
        ),
    decreases all,
{
    if count < all {
        unframed_stays(tokens, count, (all - 1) as nat, vision_start, image_token);
    }
}

/// Counts the tokens of every image.
fn count_grids(grids: &[(i32, i32, i32)], merge: i32) -> (result: Result<
    Vec<usize>,
    ImageTokenError,
>)
    requires
        merge > 0,
    ensures
        match result {
            Ok(counts) => {
                &&& grids_problem(grids@, merge as int) is None
                &&& counts@.len() == grids@.len()
                &&& forall|i: int|
                    0 <= i < counts@.len() ==> #[trigger] counts@[i] == merged_counts(
                        grids@,
                        merge as int,
                    )[i]
            },
            Err(problem) => grids_problem(grids@, merge as int) == Some(problem),
        },
{
    let mut counts: Vec<usize> = Vec::new();
    let mut index: usize = 0;
    while index < grids.len()
        invariant
            index <= grids@.len(),
            merge > 0,
            grids_problem(grids@.take(index as int), merge as int) is None,
            counts@.len() == index,
            forall|i: int|
                0 <= i < index ==> #[trigger] counts@[i] == merged_counts(grids@, merge as int)[i],
        decreases grids@.len() - index,
    {
        let (temporal, height, width): (i32, i32, i32) = grids[index];
        proof {
            assert(grids@.take(index + 1).drop_last() == grids@.take(index as int));
            assert(grids@.take(index + 1).last() == grids@[index as int]);
            if grid_problem(grids@[index as int], merge as int, index) is Some {
                grid_problem_stays(grids@, merge as int, index + 1);
            }
        }
        if !(temporal > 0 && height > 0 && width > 0) {
            return Err(ImageTokenError::GridNotPositive(index));
        }
        if !(height % merge == 0 && width % merge == 0) {
            return Err(ImageTokenError::GridNotDivisible(index));
        }
        let rows: i128 = (height / merge) as i128;
        let columns: i128 = (width / merge) as i128;
        assert(0 <= rows <= i32::MAX && 0 <= columns <= i32::MAX) by (nonlinear_arith)
            requires
                rows == height as int / merge as int,
                columns == width as int / merge as int,
                merge > 0,
                0 < height <= i32::MAX,
                0 < width <= i32::MAX,
        ;
        assert(0 <= temporal * rows <= i32::MAX * i32::MAX) by (nonlinear_arith)
            requires
                0 < temporal <= i32::MAX,
                0 <= rows <= i32::MAX,
        ;
        assert(0 <= (temporal * rows) * columns <= (i32::MAX * i32::MAX) * i32::MAX)
            by (nonlinear_arith)
            requires
                0 <= temporal * rows <= i32::MAX * i32::MAX,
                0 <= columns <= i32::MAX,
        ;
        let count: i128 = temporal as i128 * rows * columns;
        if count > i32::MAX as i128 {
            return Err(ImageTokenError::GridTooLarge(index));
        }
        counts.push(count as usize);
        index = index + 1;
    }
    assert(grids@.take(index as int) == grids@);
    Ok(counts)
}

/// Checks that every placeholder stands between vision markers.
fn check_frames(tokens: &Vec<i32>, vision_start: i32, image_token: i32) -> (result: Result<
    (),
    ImageTokenError,
>)
    requires
        vision_start < i32::MAX,
    ensures
        match result {
            Ok(_) => first_unframed(tokens@, tokens@.len(), vision_start, image_token) is None,
            Err(problem) => {
                &&& first_unframed(tokens@, tokens@.len(), vision_start, image_token) is Some
                &&& problem == ImageTokenError::NotFramed(
                    first_unframed(tokens@, tokens@.len(), vision_start, image_token)->0 as usize,
                )
            },
        },
{
    let vision_end: i32 = vision_start + 1;
    let length: usize = tokens.len();
    let mut image: usize = 0;
    let mut at: usize = 0;
    while at < length
        invariant
            at <= length,
            length == tokens@.len(),
            vision_end == vision_start + 1,
            image == occurrences(tokens@.take(at as int), image_token),
            image <= at,
            first_unframed(tokens@, at as nat, vision_start, image_token) is None,
        decreases length - at,
    {
        proof {
            assert(tokens@.take(at + 1).drop_last() == tokens@.take(at as int));
            assert(tokens@.take(at + 1).last() == tokens@[at as int]);
        }
        if tokens[at] == image_token {
            if !(at > 0 && at < length - 1 && tokens[at - 1] == vision_start && tokens[at + 1]
                == vision_end) {
                proof {
                    unframed_stays(
                        tokens@,
                        (at + 1) as nat,
                        length as nat,
                        vision_start,
                        image_token,
                    );
                }
                return Err(ImageTokenError::NotFramed(image));
            }
            image = image + 1;
        }
        at = at + 1;
    }
    Ok(())
}

/// Replaces every image placeholder by as many image tokens as its image has merged patches. The
/// prompt is left alone when that is refused.
pub fn insert_qwen_vl_image_tokens(
    prompt_tokens: &mut Vec<i32>,
    grid_thw: &[(i32, i32, i32)],
    spatial_merge_size: usize,
    vision_start_token_id: i32,
    image_token_id: i32,
) -> (result: Result<ExpandedImageTokens, ImageTokenError>)
    requires
        expansion_problem(
            old(prompt_tokens)@,
            grid_thw@,
            spatial_merge_size as int,
            vision_start_token_id,
            image_token_id,
        ) is None ==> old(prompt_tokens)@.len() + total_of(
            merged_counts(grid_thw@, spatial_merge_size as int),
        ) <= usize::MAX,
    ensures
        match result {
            Ok(done) => {
                &&& expansion_problem(
                    old(prompt_tokens)@,
                    grid_thw@,
                    spatial_merge_size as int,
                    vision_start_token_id,
                    image_token_id,
                ) is None
                &&& final(prompt_tokens)@ == expanded(
                    old(prompt_tokens)@,
                    merged_counts(grid_thw@, spatial_merge_size as int),
                    image_token_id,
                )
                &&& done.image_blocks == grid_thw@.len()
                &&& done.total_image_tokens == total_of(
                    merged_counts(grid_thw@, spatial_merge_size as int),
                )
            },
            Err(problem) => {
                &&& expansion_problem(
                    old(prompt_tokens)@,
                    grid_thw@,
                    spatial_merge_size as int,
                    vision_start_token_id,
                    image_token_id,
                ) == Some(problem)
                &&& final(prompt_tokens)@ == old(prompt_tokens)@
            },
        },
{
    if prompt_tokens.len() == 0 {
        return Err(ImageTokenError::EmptyPrompt);
    }
    if grid_thw.len() == 0 {
        return Err(ImageTokenError::EmptyGrids);
    }
    if spatial_merge_size == 0 {
        return Err(ImageTokenError::MergeZero);
    }
    if spatial_merge_size > i32::MAX as usize {
        return Err(ImageTokenError::MergeTooLarge);
    }
    let counts: Vec<usize> = count_grids(grid_thw, spatial_merge_size as i32)?;
    let ghost wanted = merged_counts(grid_thw@, spatial_merge_size as int);
    let placeholders: usize = count_occurrences(prompt_tokens, image_token_id);
    if placeholders != grid_thw.len() {
        return Err(
            ImageTokenError::PlaceholderCount { placeholders, images: grid_thw.len() },
        );
    }
    if vision_start_token_id == i32::MAX {
        return Err(ImageTokenError::VisionEndOverflow);
    }
    check_frames(prompt_tokens, vision_start_token_id, image_token_id)?;
    let total: usize = sum_counts(&counts, Ghost(wanted));
    let result: Vec<i32> = expand(prompt_tokens, &counts, image_token_id, Ghost(wanted));
    *prompt_tokens = result;
    Ok(ExpandedImageTokens { image_blocks: grid_thw.len(), total_image_tokens: total })
}

/// Counts how often a token stands in a prompt.
fn count_occurrences(tokens: &Vec<i32>, token: i32) -> (count: usize)
    ensures
        count == occurrences(tokens@, token),
{
    let mut count: usize = 0;
    let mut at: usize = 0;
    while at < tokens.len()
        invariant
            at <= tokens@.len(),
            count == occurrences(tokens@.take(at as int), token),
            count <= at,
        decreases tokens@.len() - at,
    {
        proof {
            assert(tokens@.take(at + 1).drop_last() == tokens@.take(at as int));
        }
        if tokens[at] == token {
            count = count + 1;
        }
        at = at + 1;
    }
    assert(tokens@.take(at as int) == tokens@);
    count
}

/// Adds counts up.
fn sum_counts(counts: &Vec<usize>, Ghost(wanted): Ghost<Seq<int>>) -> (total: usize)
    requires
        counts@.len() == wanted.len(),
        forall|i: int| 0 <= i < counts@.len() ==> #[trigger] counts@[i] == wanted[i],
        total_of(wanted) <= usize::MAX,
    ensures
        total == total_of(wanted),
{
    proof {
        assert forall|i: int| 0 <= i < wanted.len() implies #[trigger] wanted[i] >= 0 by {
            assert(counts@[i] == wanted[i]);
        }
    }
    let mut total: usize = 0;
    let mut index: usize = 0;
    while index < counts.len()
        invariant
            index <= counts@.len(),
            counts@.len() == wanted.len(),
            forall|i: int| 0 <= i < counts@.len() ==> #[trigger] counts@[i] == wanted[i],
            forall|i: int| 0 <= i < wanted.len() ==> #[trigger] wanted[i] >= 0,
            total_of(wanted) <= usize::MAX,
            total == total_of(wanted.take(index as int)),
        decreases counts@.len() - index,
    {
        proof {
            prefix_total_is_smaller(wanted, index as int);
            assert(wanted.take(index + 1).drop_last() == wanted.take(index as int));
            assert(counts@[index as int] == wanted[index as int]);
        }
        total = total + counts[index];
        index = index + 1;
    }
    assert(wanted.take(index as int) == wanted);
    total
}

/// Writes placeholders out.
fn expand(
    tokens: &Vec<i32>,
    counts: &Vec<usize>,
    image_token: i32,
    Ghost(wanted): Ghost<Seq<int>>,
) -> (result: Vec<i32>)
    requires
        counts@.len() == wanted.len(),
        forall|i: int| 0 <= i < counts@.len() ==> #[trigger] counts@[i] == wanted[i],
        occurrences(tokens@, image_token) == wanted.len(),
    ensures
        result@ == expanded(tokens@, wanted, image_token),
{
    let mut result: Vec<i32> = Vec::new();
    let mut image: usize = 0;
    let mut at: usize = 0;
    while at < tokens.len()
        invariant
            at <= tokens@.len(),
            counts@.len() == wanted.len(),
            forall|i: int| 0 <= i < counts@.len() ==> #[trigger] counts@[i] == wanted[i],
            occurrences(tokens@, image_token) == wanted.len(),
            image == occurrences(tokens@.take(at as int), image_token),
            image <= counts@.len(),
            result@ == expanded(tokens@.take(at as int), wanted, image_token),
        decreases tokens@.len() - at,
    {
        proof {
            assert(tokens@.take(at + 1).drop_last() == tokens@.take(at as int));
            assert(tokens@.take(at + 1).last() == tokens@[at as int]);
            prefix_has_fewer(tokens@, image_token, at as int);
        }
        let token: i32 = tokens[at];
        if token == image_token {
            let ghost before = result@;
            let times: usize = counts[image];
            let mut written: usize = 0;
            while written < times
                invariant
                    written <= times,
                    result@ == before + repeated(image_token, written as int),
                decreases times - written,
            {
                result.push(image_token);
                proof {
                    assert(before + repeated(image_token, written + 1) == (before + repeated(
                        image_token,
                        written as int,
                    )).push(image_token));
                }
                written = written + 1;
            }
            image = image + 1;
        } else {
            result.push(token);
        }
        at = at + 1;
    }
    assert(tokens@.take(at as int) == tokens@);
    result
}

/// A prompt without its image tokens.
pub open spec fn text_of(tokens: Seq<i32>, image_token: i32) -> Seq<i32>
    decreases tokens.len(),
{
    if tokens.len() == 0 {
        Seq::empty()
    } else {
        let front = text_of(tokens.drop_last(), image_token);
        if tokens.last() == image_token {
            front
        } else {
            front.push(tokens.last())
        }
    }
}

/// Image tokens at the end of a prompt change nothing of its text and count as image tokens.
proof fn trailing_images(front: Seq<i32>, image_token: i32, times: int)
    requires
        times >= 0,
    ensures
        text_of(front + repeated(image_token, times), image_token) == text_of(front, image_token),
        occurrences(front + repeated(image_token, times), image_token) == occurrences(
            front,
            image_token,
        ) + times,
    decreases times,
{
    let all = front + repeated(image_token, times);
    if times == 0 {
        assert(all == front);
    } else {
        assert(all.drop_last() == front + repeated(image_token, times - 1));
        assert(all.last() == image_token);
        trailing_images(front, image_token, times - 1);
    }
}

/// Expansion keeps the text of a prompt and its order, and writes as many image tokens as the
/// images have.
pub proof fn expansion_keeps_text(tokens: Seq<i32>, counts: Seq<int>, image_token: i32)
    requires
        occurrences(tokens, image_token) <= counts.len(),
        forall|i: int| 0 <= i < counts.len() ==> #[trigger] counts[i] >= 0,
    ensures
        text_of(expanded(tokens, counts, image_token), image_token) == text_of(tokens, image_token),
        occurrences(expanded(tokens, counts, image_token), image_token) == total_of(
            counts.take(occurrences(tokens, image_token) as int),
        ),
        expanded(tokens, counts, image_token).len() == tokens.len() - occurrences(
            tokens,
            image_token,
        ) + total_of(counts.take(occurrences(tokens, image_token) as int)),
    decreases tokens.len(),
{
    if tokens.len() == 0 {
        assert(counts.take(0) == Seq::<int>::empty());
    } else {
        let front = tokens.drop_last();
        let seen = occurrences(front, image_token) as int;
        let written = expanded(front, counts, image_token);
        expansion_keeps_text(front, counts, image_token);
        if tokens.last() == image_token {
            assert(counts.take(seen + 1).drop_last() == counts.take(seen));
            assert(counts.take(seen + 1).last() == counts[seen]);
            trailing_images(written, image_token, counts[seen]);
        } else {
            assert(written.push(tokens.last()).drop_last() == written);
        }
    }
}

} // verus!
