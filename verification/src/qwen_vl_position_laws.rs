//! How the positions of a prompt with images follow each other.

use vstd::prelude::*;
use crate::qwen_vl_position::{
    all_positive, extent, extent_is_bounded, flat_index, image_is_bounded, image_positions,
    is_largest, is_vision, merged_grid, positions_are_bounded, positions_from, prompt_positions,
    text_positions, text_run, vision_run, volume, within, Position, RopeIndexError,
};
use crate::qwen_position::decode_position;

verus! {

/// Whether all coordinates of a position are smaller than a value.
pub open spec fn all_below(position: Position, value: int) -> bool {
    position.time < value && position.row < value && position.column < value
}

/// Whether one of the coordinates of a position is a value.
pub open spec fn reaches(position: Position, value: int) -> bool {
    position.time == value || position.row == value || position.column == value
}

/// Whether token `i` stands right after everything before it: its coordinates are the same on all
/// axes, larger than all coordinates so far, and larger by one than the largest of them. The first
/// token stands at `base`.
pub open spec fn stands_next(positions: Seq<Position>, i: int, base: int) -> bool {
    let value = positions[i].time;
    &&& positions[i].row == value
    &&& positions[i].column == value
    &&& forall|j: int| 0 <= j < i ==> all_below(#[trigger] positions[j], value)
    &&& if i == 0 {
        value == base
    } else {
        exists|j: int| 0 <= j < i && reaches(#[trigger] positions[j], value - 1)
    }
}

/// Whether a token starts something: it is text, or the first token of an image.
pub open spec fn starts_anew(tokens: Seq<i32>, i: int, image_token: i32, video_token: i32) -> bool {
    ||| tokens[i] != image_token && tokens[i] != video_token
    ||| i == 0
    ||| tokens[i - 1] != image_token && tokens[i - 1] != video_token
}

/// Whether a token stands for part of an image.
spec fn of_image(tokens: Seq<i32>, i: int, image_token: i32, video_token: i32) -> bool {
    tokens[i] == image_token || tokens[i] == video_token
}

/// How many tokens of the same image stand before token `i`.
pub open spec fn place_in_image(tokens: Seq<i32>, i: int, image_token: i32, video_token: i32) -> int
    decreases i,
{
    if i <= 0 || (tokens[i - 1] != image_token && tokens[i - 1] != video_token) {
        0
    } else {
        1 + place_in_image(tokens, i - 1, image_token, video_token)
    }
}

/// How many images start among the first `count` tokens.
pub open spec fn images_started(
    tokens: Seq<i32>,
    count: int,
    image_token: i32,
    video_token: i32,
) -> int
    decreases count,
{
    if count <= 0 {
        0
    } else {
        let i = count - 1;
        images_started(tokens, i, image_token, video_token) + if (tokens[i] == image_token
            || tokens[i] == video_token) && (i == 0 || (tokens[i - 1] != image_token && tokens[i - 1]
            != video_token)) {
            1int
        } else {
            0int
        }
    }
}

/// Runs are as long as they can be.
proof fn runs_are_maximal(tokens: Seq<i32>, image_token: i32, video_token: i32)
    ensures
        ({
            let text = text_run(tokens, image_token, video_token) as int;
            let run = vision_run(tokens, image_token, video_token) as int;
            &&& text <= tokens.len()
            &&& run <= tokens.len()
            &&& forall|i: int|
                0 <= i < text ==> !is_vision(#[trigger] tokens[i], image_token, video_token)
            &&& forall|i: int|
                0 <= i < run ==> is_vision(#[trigger] tokens[i], image_token, video_token)
            &&& text < tokens.len() ==> is_vision(tokens[text], image_token, video_token)
            &&& run < tokens.len() ==> !is_vision(tokens[run], image_token, video_token)
        }),
    decreases tokens.len(),
{
    if tokens.len() > 0 {
        let rest = tokens.skip(1);
        runs_are_maximal(rest, image_token, video_token);
        let text = text_run(tokens, image_token, video_token) as int;
        let run = vision_run(tokens, image_token, video_token) as int;
        assert forall|i: int| 0 <= i < text implies !is_vision(
            #[trigger] tokens[i],
            image_token,
            video_token,
        ) by {
            if i > 0 {
                assert(rest[i - 1] == tokens[i]);
            }
        }
        assert forall|i: int| 0 <= i < run implies is_vision(
            #[trigger] tokens[i],
            image_token,
            video_token,
        ) by {
            if i > 0 {
                assert(rest[i - 1] == tokens[i]);
            }
        }
        if 0 < text < tokens.len() {
            assert(rest[text - 1] == tokens[text]);
        }
        if 0 < run < tokens.len() {
            assert(rest[run - 1] == tokens[run]);
        }
    }
}

/// The last token of an image has its largest coordinates, one less than the extent further on than
/// the first.
proof fn last_image_token(first: int, merged: (int, int, int))
    requires
        all_positive(merged),
        volume(merged) > 0,
    ensures
        ({
            let last = image_positions(first, merged)[volume(merged) - 1];
            &&& last.time == first + merged.0 - 1
            &&& last.row == first + merged.1 - 1
            &&& last.column == first + merged.2 - 1
        }),
{
    let (a, b, c) = merged;
    assert(volume(merged) - 1 == ((a - 1) * b + (b - 1)) * c + (c - 1)) by (nonlinear_arith)
        requires
            volume(merged) == a * b * c,
    ;
    flat_index(volume(merged) - 1, a - 1, b - 1, c - 1, b, c);
}

/// Text, and the first token of every image, stand right after everything before them.
proof fn later_parts_stand_next(
    tokens: Seq<i32>,
    grids: Seq<(i32, i32, i32)>,
    merge: int,
    image_token: i32,
    video_token: i32,
    image: nat,
    position: int,
    i: int,
)
    requires
        merge > 0,
        positions_from(tokens, grids, merge, image_token, video_token, image, position) is Ok,
        positions_from(
            tokens,
            grids,
            merge,
            image_token,
            video_token,
            image,
            position,
        )->Ok_0.len() == tokens.len(),
        0 <= i < tokens.len(),
        starts_anew(tokens, i, image_token, video_token),
    ensures
        stands_next(
            positions_from(
                tokens,
                grids,
                merge,
                image_token,
                video_token,
                image,
                position,
            )->Ok_0,
            i,
            position,
        ),
    decreases tokens.len(),
{
    let text = text_run(tokens, image_token, video_token);
    let run = vision_run(tokens.skip(text as int), image_token, video_token);
    let positions = positions_from(
        tokens,
        grids,
        merge,
        image_token,
        video_token,
        image,
        position,
    )->Ok_0;
    runs_are_maximal(tokens, image_token, video_token);
    runs_are_maximal(tokens.skip(text as int), image_token, video_token);
    let front = text_positions(position, text);
    if text >= tokens.len() || run == 0 {
        if i > 0 {
            assert(reaches(positions[i - 1], positions[i].time - 1));
        }
    } else {
        let merged = merged_grid(grids[image as int], merge);
        let middle = image_positions(position + text, merged);
        let next = position + text + extent(merged);
        let later = tokens.skip((text + run) as int);
        let rest = positions_from(
            later,
            grids,
            merge,
            image_token,
            video_token,
            image + 1,
            next,
        )->Ok_0;
        extent_is_bounded(merged, run as int);
        positions_are_bounded(
            later,
            grids,
            merge,
            image_token,
            video_token,
            image + 1,
            next,
        );
        assert(positions == front + middle + rest);
        assert(all_positive(merged));
        let split = (text + run) as int;
        assert forall|j: int| 0 <= j < split implies all_below(#[trigger] positions[j], next)
            && (j < text ==> positions[j] == front[j]) && (j >= text ==> positions[j] == middle[j
            - text]) by {
            if j >= text {
                image_is_bounded(merged, j - text);
            }
        }
        if i < text {
            if i > 0 {
                assert(positions[i - 1] == front[i - 1]);
                assert(reaches(positions[i - 1], positions[i].time - 1));
            }
        } else if i == text {
            image_is_bounded(merged, 0);
            assert((0 * merged.1 + 0) * merged.2 + 0 == 0) by (nonlinear_arith);
            flat_index(0, 0, 0, 0, merged.1, merged.2);
            assert(positions[i] == middle[0]);
            assert(positions[i].time == position + text);
            if i > 0 {
                assert(positions[i - 1] == front[i - 1]);
                assert(reaches(positions[i - 1], positions[i].time - 1));
            }
        } else if i < split {
            assert(tokens[i] == tokens.skip(text as int)[i - text]);
            assert(tokens[i - 1] == tokens.skip(text as int)[i - 1 - text]);
            assert(false);
        } else {
            let k = i - split;
            assert(later[k] == tokens[i]);
            if k > 0 {
                assert(later[k - 1] == tokens[i - 1]);
            }
            later_parts_stand_next(
                later,
                grids,
                merge,
                image_token,
                video_token,
                image + 1,
                next,
                k,
            );
            assert(positions[i] == rest[k]);
            let value = positions[i].time;
            assert(value >= next) by {
                assert(within(rest[k], next, next + later.len()));
            }
            assert forall|j: int| 0 <= j < i implies all_below(#[trigger] positions[j], value) by {
                if j >= split {
                    assert(positions[j] == rest[j - split]);
                }
            }
            if k == 0 {
                last_image_token(position + text, merged);
                assert(positions[split - 1] == middle[run - 1]);
                assert(reaches(positions[split - 1], next - 1));
            } else {
                let j = choose|j: int| 0 <= j < k && reaches(#[trigger] rest[j], value - 1);
                assert(positions[split + j] == rest[j]);
                assert(reaches(positions[split + j], value - 1));
            }
        }
    }
}

/// Every text token, and the first token of every image, stands right after everything before it: on
/// the same place of all axes, past all earlier coordinates, and next to the largest of them. The
/// first token stands at zero.
pub proof fn tokens_stand_next_to_earlier_ones(
    tokens: Seq<i32>,
    grids: Seq<(i32, i32, i32)>,
    merge: int,
    image_token: i32,
    video_token: i32,
    i: int,
)
    requires
        merge > 0,
        prompt_positions(tokens, grids, merge, image_token, video_token) is Ok,
        0 <= i < tokens.len(),
        starts_anew(tokens, i, image_token, video_token),
    ensures
        stands_next(
            prompt_positions(tokens, grids, merge, image_token, video_token)->Ok_0,
            i,
            0,
        ),
{
    later_parts_stand_next(tokens, grids, merge, image_token, video_token, 0, 0, i);
}

/// A later part of the tokens has the same places and images as the whole, counted from its start.
proof fn later_places(tokens: Seq<i32>, split: int, i: int, image_token: i32, video_token: i32)
    requires
        0 <= split < i < tokens.len(),
        !is_vision(tokens[split], image_token, video_token),
    ensures
        place_in_image(tokens, i, image_token, video_token) == place_in_image(
            tokens.skip(split),
            i - split,
            image_token,
            video_token,
        ),
    decreases i,
{
    assert(tokens.skip(split)[i - 1 - split] == tokens[i - 1]);
    if i > split + 1 {
        later_places(tokens, split, i - 1, image_token, video_token);
    }
}

proof fn later_images(tokens: Seq<i32>, split: int, count: int, image_token: i32, video_token: i32)
    requires
        0 <= split < count <= tokens.len(),
        !is_vision(tokens[split], image_token, video_token),
    ensures
        images_started(tokens, count, image_token, video_token) == images_started(
            tokens,
            split,
            image_token,
            video_token,
        ) + images_started(tokens.skip(split), count - split, image_token, video_token),
    decreases count,
{
    let rest = tokens.skip(split);
    assert(rest[count - 1 - split] == tokens[count - 1]);
    if count == split + 1 {
        assert(images_started(rest, 0, image_token, video_token) == 0);
    } else {
        assert(rest[count - 2 - split] == tokens[count - 2]);
        later_images(tokens, split, count - 1, image_token, video_token);
    }
}

/// Inside the first image places count up, and one image has started.
proof fn first_image_places(
    tokens: Seq<i32>,
    text: int,
    run: int,
    i: int,
    image_token: i32,
    video_token: i32,
)
    requires
        0 <= text <= i < text + run <= tokens.len(),
        forall|j: int| 0 <= j < text ==> !is_vision(#[trigger] tokens[j], image_token, video_token),
        forall|j: int|
            text <= j < text + run ==> is_vision(#[trigger] tokens[j], image_token, video_token),
    ensures
        place_in_image(tokens, i, image_token, video_token) == i - text,
        images_started(tokens, i + 1, image_token, video_token) == 1,
    decreases i,
{
    assert(is_vision(tokens[i], image_token, video_token));
    if i == text {
        no_image_yet(tokens, text, image_token, video_token);
        if i > 0 {
            assert(!is_vision(tokens[i - 1], image_token, video_token));
        }
    } else {
        assert(is_vision(tokens[i - 1], image_token, video_token));
        first_image_places(tokens, text, run, i - 1, image_token, video_token);
    }
}

proof fn no_image_yet(tokens: Seq<i32>, count: int, image_token: i32, video_token: i32)
    requires
        0 <= count <= tokens.len(),
        forall|j: int| 0 <= j < count ==> !is_vision(#[trigger] tokens[j], image_token, video_token),
    ensures
        images_started(tokens, count, image_token, video_token) == 0,
    decreases count,
{
    if count > 0 {
        assert(!is_vision(tokens[count - 1], image_token, video_token));
        no_image_yet(tokens, count - 1, image_token, video_token);
    }
}

/// Whether a token of an image stands at its place: relative to the first token of the image, its
/// coordinates are a frame, a row and a column of the merged grid, and counting frame by frame and
/// row by row gives the number of tokens of the image before it.
pub open spec fn in_reading_order(
    positions: Seq<Position>,
    i: int,
    place: int,
    grid: (i32, i32, i32),
    merge: int,
) -> bool {
    let first = positions[i - place];
    let frame = positions[i].time - first.time;
    let row = positions[i].row - first.row;
    let column = positions[i].column - first.column;
    let rows = grid.1 as int / merge;
    let columns = grid.2 as int / merge;
    &&& 0 <= place <= i
    &&& 0 <= frame < grid.0
    &&& 0 <= row < rows
    &&& 0 <= column < columns
    &&& (frame * rows + row) * columns + column == place
}

proof fn later_images_are_read_in_order(
    tokens: Seq<i32>,
    grids: Seq<(i32, i32, i32)>,
    merge: int,
    image_token: i32,
    video_token: i32,
    image: nat,
    position: int,
    i: int,
)
    requires
        merge > 0,
        positions_from(tokens, grids, merge, image_token, video_token, image, position) is Ok,
        positions_from(
            tokens,
            grids,
            merge,
            image_token,
            video_token,
            image,
            position,
        )->Ok_0.len() == tokens.len(),
        0 <= i < tokens.len(),
        of_image(tokens, i, image_token, video_token),
    ensures
        ({
            let number = image + images_started(tokens, i + 1, image_token, video_token) - 1;
            &&& 0 <= number < grids.len()
            &&& in_reading_order(
                positions_from(
                    tokens,
                    grids,
                    merge,
                    image_token,
                    video_token,
                    image,
                    position,
                )->Ok_0,
                i,
                place_in_image(tokens, i, image_token, video_token),
                grids[number],
                merge,
            )
            &&& i + 1 == tokens.len() || !of_image(tokens, i + 1, image_token, video_token)
                ==> place_in_image(tokens, i, image_token, video_token) + 1 == grids[number].0 * (
            grids[number].1 as int / merge) * (grids[number].2 as int / merge)
        }),
    decreases tokens.len(),
{
    let text = text_run(tokens, image_token, video_token) as int;
    let run = vision_run(tokens.skip(text), image_token, video_token) as int;
    let positions = positions_from(
        tokens,
        grids,
        merge,
        image_token,
        video_token,
        image,
        position,
    )->Ok_0;
    runs_are_maximal(tokens, image_token, video_token);
    runs_are_maximal(tokens.skip(text), image_token, video_token);
    assert(is_vision(tokens[i], image_token, video_token));
    assert(i >= text);
    assert(text < tokens.len());
    assert(tokens.skip(text)[0] == tokens[text]);
    assert(run > 0);
    let merged = merged_grid(grids[image as int], merge);
    let front = text_positions(position, text as nat);
    let middle = image_positions(position + text, merged);
    let next = position + text + extent(merged);
    let split = text + run;
    let later = tokens.skip(split);
    let rest = positions_from(
        later,
        grids,
        merge,
        image_token,
        video_token,
        image + 1,
        next,
    )->Ok_0;
    extent_is_bounded(merged, run);
    positions_are_bounded(later, grids, merge, image_token, video_token, image + 1, next);
    assert(positions == front + middle + rest);
    assert(all_positive(merged));
    assert forall|j: int| text <= j < split implies is_vision(
        #[trigger] tokens[j],
        image_token,
        video_token,
    ) by {
        assert(tokens.skip(text)[j - text] == tokens[j]);
    }
    if i < split {
        let k = i - text;
        if i + 1 < split {
            assert(is_vision(tokens[i + 1], image_token, video_token));
        }
        first_image_places(tokens, text, run, i, image_token, video_token);
        image_is_bounded(merged, k);
        assert((0 * merged.1 + 0) * merged.2 + 0 == 0) by (nonlinear_arith);
        flat_index(0, 0, 0, 0, merged.1, merged.2);
        assert(positions[i] == middle[k]);
        assert(positions[text] == middle[0]);
        let (a, b, c) = merged;
        vstd::arithmetic::div_mod::lemma_fundamental_div_mod(k, c);
        vstd::arithmetic::div_mod::lemma_fundamental_div_mod(k / c, b);
        vstd::arithmetic::div_mod::lemma_div_denominator(k, c, b);
        assert(c * b == b * c) by (nonlinear_arith);
        let frame = k / (b * c);
        let row = k / c % b;
        let column = k % c;
        assert(k / c == b * frame + row);
        assert((frame * b + row) * c + column == k) by (nonlinear_arith)
            requires
                k == c * (b * frame + row) + column,
        ;
    } else {
        assert(tokens.skip(text)[run] == tokens[split]);
        assert(!is_vision(tokens[split], image_token, video_token));
        assert(i > split);
        let k = i - split;
        assert(later[k] == tokens[i]);
        later_images_are_read_in_order(
            later,
            grids,
            merge,
            image_token,
            video_token,
            image + 1,
            next,
            k,
        );
        later_places(tokens, split, i, image_token, video_token);
        later_images(tokens, split, i + 1, image_token, video_token);
        first_image_places(tokens, text, run, split - 1, image_token, video_token);
        let place = place_in_image(tokens, i, image_token, video_token);
        if i + 1 < tokens.len() {
            assert(later[k + 1] == tokens[i + 1]);
        }
        assert(positions[i] == rest[k]);
        assert(positions[i - place] == rest[k - place]);
    }
}

/// The tokens of every image stand frame by frame, row by row and column by column of its merged
/// grid, and there are as many of them as the grid has places. The grids belong to the images in
/// order.
pub proof fn images_are_read_in_order(
    tokens: Seq<i32>,
    grids: Seq<(i32, i32, i32)>,
    merge: int,
    image_token: i32,
    video_token: i32,
    i: int,
)
    requires
        merge > 0,
        prompt_positions(tokens, grids, merge, image_token, video_token) is Ok,
        0 <= i < tokens.len(),
        tokens[i] == image_token || tokens[i] == video_token,
    ensures
        ({
            let number = images_started(tokens, i + 1, image_token, video_token) - 1;
            &&& 0 <= number < grids.len()
            &&& in_reading_order(
                prompt_positions(tokens, grids, merge, image_token, video_token)->Ok_0,
                i,
                place_in_image(tokens, i, image_token, video_token),
                grids[number],
                merge,
            )
            &&& i + 1 == tokens.len() || (tokens[i + 1] != image_token && tokens[i + 1]
                != video_token) ==> place_in_image(tokens, i, image_token, video_token) + 1
                == grids[number].0 * (grids[number].1 as int / merge) * (grids[number].2 as int
                / merge)
        }),
{
    later_images_are_read_in_order(tokens, grids, merge, image_token, video_token, 0, 0, i);
}

/// The first decoded token stands right after the largest coordinate of the prompt on any axis, and
/// the ones after it one further each.
pub proof fn decoding_stands_next_to_prompt(
    tokens: Seq<i32>,
    grids: Seq<(i32, i32, i32)>,
    merge: int,
    image_token: i32,
    video_token: i32,
    rope_delta: int,
    i: int,
)
    requires
        merge > 0,
        prompt_positions(tokens, grids, merge, image_token, video_token) is Ok,
        is_largest(
            prompt_positions(tokens, grids, merge, image_token, video_token)->Ok_0,
            rope_delta + tokens.len() - 1,
        ),
    ensures
        ({
            let positions = prompt_positions(tokens, grids, merge, image_token, video_token)->Ok_0;
            let first = decode_position(tokens.len() as int, rope_delta, 0);
            &&& forall|j: int| 0 <= j < tokens.len() ==> all_below(#[trigger] positions[j], first)
            &&& exists|j: int| 0 <= j < tokens.len() && reaches(#[trigger] positions[j], first - 1)
            &&& decode_position(tokens.len() as int, rope_delta, i) == first + i
            &&& decode_position(tokens.len() + i, rope_delta, 0) == first + i
        }),
{
    let positions = prompt_positions(tokens, grids, merge, image_token, video_token)->Ok_0;
    let largest = rope_delta + tokens.len() - 1;
    let j = choose|j: int|
        0 <= j < positions.len() && ((#[trigger] positions[j]).time == largest || positions[j].row
            == largest || positions[j].column == largest);
    assert(reaches(positions[j], largest));
}

/// A prompt without tokens has no positions, nor one whose patches are merged by nothing; a prompt of
/// text needs that there be no grids.
pub proof fn prompts_need_tokens_and_a_merge_size(
    tokens: Seq<i32>,
    grids: Seq<(i32, i32, i32)>,
    merge: nat,
    image_token: i32,
    video_token: i32,
)
    ensures
        tokens.len() == 0 ==> prompt_positions(
            tokens,
            grids,
            merge as int,
            image_token,
            video_token,
        ) == Err::<Seq<Position>, RopeIndexError>(RopeIndexError::EmptyPrompt),
        tokens.len() > 0 && merge == 0 ==> prompt_positions(
            tokens,
            grids,
            merge as int,
            image_token,
            video_token,
        ) == Err::<Seq<Position>, RopeIndexError>(RopeIndexError::MergeZero),
        tokens.len() > 0 && merge > 0 && grids.len() > 0 && (forall|i: int|
            0 <= i < tokens.len() ==> #[trigger] tokens[i] != image_token && tokens[i]
                != video_token) ==> prompt_positions(
            tokens,
            grids,
            merge as int,
            image_token,
            video_token,
        ) == Err::<Seq<Position>, RopeIndexError>(RopeIndexError::GridsExceedRuns),
        grids.len() == 0 && (exists|i: int|
            0 <= i < tokens.len() && (#[trigger] tokens[i] == image_token || tokens[i]
                == video_token)) && merge > 0 ==> prompt_positions(
            tokens,
            grids,
            merge as int,
            image_token,
            video_token,
        ) == Err::<Seq<Position>, RopeIndexError>(RopeIndexError::RunsExceedGrids),
{
    let text = text_run(tokens, image_token, video_token) as int;
    runs_are_maximal(tokens, image_token, video_token);
    runs_are_maximal(tokens.skip(text), image_token, video_token);
    if text < tokens.len() {
        assert(tokens.skip(text)[0] == tokens[text]);
        assert(is_vision(tokens[text], image_token, video_token));
    }
    if exists|i: int|
        0 <= i < tokens.len() && (#[trigger] tokens[i] == image_token || tokens[i] == video_token) {
        let i = choose|i: int|
            0 <= i < tokens.len() && (#[trigger] tokens[i] == image_token || tokens[i]
                == video_token);
        assert(is_vision(tokens[i], image_token, video_token));
        assert(text <= i);
    }
}

} // verus!
