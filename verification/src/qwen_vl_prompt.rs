//! An expanded prompt has positions: the two passes over a prompt with images agree.

use vstd::prelude::*;
use crate::qwen_vl::{
    expanded, expansion_problem, first_unframed, framed, grid_problem, grids_problem, merged_count,
    merged_counts, occurrences, prefix_has_fewer, repeated,
};
use crate::qwen_vl_position::{
    all_positive, divisible, extent, grids_fit, is_vision, merged_grid, positions_from,
    prompt_positions, runs_fit, text_positions, text_run, vision_run, volume, Position, RopeIndexError,
};

verus! {

/// What the tokens from `start` on expand to, after `seen` placeholders.
spec fn written_from(
    tokens: Seq<i32>,
    counts: Seq<int>,
    image_token: i32,
    start: int,
    seen: int,
) -> Seq<i32>
    decreases tokens.len() - start,
{
    if start >= tokens.len() {
        Seq::empty()
    } else if tokens[start] == image_token {
        repeated(image_token, counts[seen]) + written_from(
            tokens,
            counts,
            image_token,
            start + 1,
            seen + 1,
        )
    } else {
        seq![tokens[start]] + written_from(tokens, counts, image_token, start + 1, seen)
    }
}

/// Expanding a prompt from its start gives what expanding it towards its end does.
proof fn written_joins(tokens: Seq<i32>, counts: Seq<int>, image_token: i32, start: int)
    requires
        0 <= start <= tokens.len(),
    ensures
        expanded(tokens, counts, image_token) == expanded(tokens.take(start), counts, image_token)
            + written_from(
            tokens,
            counts,
            image_token,
            start,
            occurrences(tokens.take(start), image_token) as int,
        ),
    decreases tokens.len() - start,
{
    let front = tokens.take(start);
    let seen = occurrences(front, image_token) as int;
    let done = expanded(front, counts, image_token);
    if start == tokens.len() {
        assert(front == tokens);
        assert(done + Seq::<i32>::empty() == done);
    } else {
        let more = tokens.take(start + 1);
        assert(more.drop_last() == front);
        assert(more.last() == tokens[start]);
        written_joins(tokens, counts, image_token, start + 1);
        if tokens[start] == image_token {
            let rest = written_from(tokens, counts, image_token, start + 1, seen + 1);
            let run = repeated(image_token, counts[seen]);
            assert(done + run + rest == done + (run + rest));
        } else {
            let rest = written_from(tokens, counts, image_token, start + 1, seen);
            assert(done.push(tokens[start]) + rest == done + (seq![tokens[start]] + rest));
        }
    }
}

/// Grids without a problem are all positive and divisible, and their tokens can be counted.
proof fn grids_are_sound(grids: Seq<(i32, i32, i32)>, merge: int, index: int)
    requires
        grids_problem(grids, merge) is None,
        0 <= index < grids.len(),
    ensures
        grid_problem(grids[index], merge, index as usize) is None,
    decreases grids.len(),
{
    if index < grids.len() - 1 {
        grids_are_sound(grids.drop_last(), merge, index);
    }
}

/// A sound grid has tokens, and as many positions.
proof fn sound_grid_has_tokens(grid: (i32, i32, i32), merge: int, index: usize)
    requires
        merge > 0,
        grid_problem(grid, merge, index) is None,
    ensures
        divisible(grid, merge),
        all_positive(merged_grid(grid, merge)),
        0 < volume(merged_grid(grid, merge)) == merged_count(grid, merge) <= i32::MAX,
        0 < merged_grid(grid, merge).0 * merged_grid(grid, merge).1 <= i32::MAX,
{
    let (frames, rows, columns) = merged_grid(grid, merge);
    assert(rows > 0) by (nonlinear_arith)
        requires
            rows == grid.1 as int / merge,
            grid.1 > 0,
            grid.1 as int % merge == 0,
            merge > 0,
    ;
    assert(columns > 0) by (nonlinear_arith)
        requires
            columns == grid.2 as int / merge,
            grid.2 > 0,
            grid.2 as int % merge == 0,
            merge > 0,
    ;
    assert(0 < frames * rows <= frames * rows * columns) by (nonlinear_arith)
        requires
            frames > 0,
            rows > 0,
            columns > 0,
    ;
}

/// Where no placeholder is reported, every placeholder is framed.
proof fn placeholders_are_framed(
    tokens: Seq<i32>,
    count: nat,
    vision_start: i32,
    image_token: i32,
    at: int,
)
    requires
        first_unframed(tokens, count, vision_start, image_token) is None,
        0 <= at < count,
        tokens[at] == image_token,
    ensures
        framed(tokens, at, vision_start),
    decreases count,
{
    if at < count - 1 {
        placeholders_are_framed(tokens, (count - 1) as nat, vision_start, image_token, at);
    }
}

/// Framed placeholders do not stand side by side: otherwise they would go on without end.
proof fn placeholders_stand_apart(tokens: Seq<i32>, vision_start: i32, image_token: i32, at: int)
    requires
        first_unframed(tokens, tokens.len(), vision_start, image_token) is None,
        0 <= at < tokens.len(),
        tokens[at] == image_token,
    ensures
        at + 1 < tokens.len(),
        tokens[at + 1] != image_token,
    decreases tokens.len() - at,
{
    placeholders_are_framed(tokens, tokens.len(), vision_start, image_token, at);
    if tokens[at + 1] == image_token {
        placeholders_stand_apart(tokens, vision_start, image_token, at + 1);
        placeholders_are_framed(tokens, tokens.len(), vision_start, image_token, at + 1);
    }
}

/// One more text token in front moves all positions on by one.
proof fn text_moves_positions(
    token: i32,
    rest: Seq<i32>,
    grids: Seq<(i32, i32, i32)>,
    merge: int,
    image_token: i32,
    video_token: i32,
    image: nat,
    position: int,
)
    requires
        !is_vision(token, image_token, video_token),
    ensures
        positions_from(
            seq![token] + rest,
            grids,
            merge,
            image_token,
            video_token,
            image,
            position,
        ) == (match positions_from(
            rest,
            grids,
            merge,
            image_token,
            video_token,
            image,
            position + 1,
        ) {
            Ok(positions) => Ok::<Seq<Position>, RopeIndexError>(
                text_positions(position, 1) + positions,
            ),
            Err(problem) => Err(problem),
        }),
{
    let all = seq![token] + rest;
    let text = text_run(rest, image_token, video_token);
    assert(all.skip(1) == rest);
    assert(text_run(all, image_token, video_token) == text + 1);
    runs_fit(rest, image_token, video_token);
    assert(all.skip((text + 1) as int) == rest.skip(text as int));
    runs_fit(rest.skip(text as int), image_token, video_token);
    let run = vision_run(rest.skip(text as int), image_token, video_token);
    assert(all.skip((text + 1 + run) as int) == rest.skip((text + run) as int));
    let one = text_positions(position, 1);
    let more = text_positions(position + 1, text);
    assert(text_positions(position, text + 1) == one + more);
    let left = positions_from(all, grids, merge, image_token, video_token, image, position);
    let right = positions_from(rest, grids, merge, image_token, video_token, image, position + 1);
    if left is Ok && right is Ok {
        assert(left->Ok_0 =~= one + right->Ok_0);
    }
}

/// A run of image tokens ends where the text goes on.
proof fn run_ends_at_text(rest: Seq<i32>, image_token: i32, video_token: i32, times: int)
    requires
        times >= 0,
        rest.len() > 0,
        !is_vision(rest[0], image_token, video_token),
    ensures
        vision_run(repeated(image_token, times) + rest, image_token, video_token) == times,
    decreases times,
{
    let all = repeated(image_token, times) + rest;
    if times == 0 {
        assert(all == rest);
    } else {
        assert(all[0] == image_token);
        assert(all.skip(1) == repeated(image_token, times - 1) + rest);
        run_ends_at_text(rest, image_token, video_token, times - 1);
    }
}

/// What the tokens from `start` on expand to has one position for every token.
proof fn written_has_positions(
    tokens: Seq<i32>,
    grids: Seq<(i32, i32, i32)>,
    merge: int,
    vision_start: i32,
    image_token: i32,
    video_token: i32,
    start: int,
    position: int,
)
    requires
        merge > 0,
        expansion_problem(tokens, grids, merge, vision_start, image_token) is None,
        image_token != video_token,
        !tokens.contains(video_token),
        0 <= start <= tokens.len(),
    ensures
        ({
            let seen = occurrences(tokens.take(start), image_token);
            let written = written_from(
                tokens,
                merged_counts(grids, merge),
                image_token,
                start,
                seen as int,
            );
            let positions = positions_from(
                written,
                grids,
                merge,
                image_token,
                video_token,
                seen,
                position,
            );
            positions is Ok && positions->Ok_0.len() == written.len()
        }),
    decreases tokens.len() - start,
{
    let counts = merged_counts(grids, merge);
    let seen = occurrences(tokens.take(start), image_token);
    let written = written_from(tokens, counts, image_token, start, seen as int);
    if start == tokens.len() {
        assert(tokens.take(start) == tokens);
        assert(text_run(written, image_token, video_token) == 0);
    } else {
        let token = tokens[start];
        assert(tokens.contains(token));
        let more = tokens.take(start + 1);
        assert(more.drop_last() == tokens.take(start));
        assert(more.last() == token);
        if token == image_token {
            prefix_has_fewer(tokens, image_token, start);
            let grid = grids[seen as int];
            let merged = merged_grid(grid, merge);
            let run = counts[seen as int];
            grids_are_sound(grids, merge, seen as int);
            sound_grid_has_tokens(grid, merge, seen as usize);
            placeholders_stand_apart(tokens, vision_start, image_token, start);
            let rest = written_from(tokens, counts, image_token, start + 1, seen as int + 1);
            assert(tokens.contains(tokens[start + 1]));
            assert(rest[0] == tokens[start + 1]);
            run_ends_at_text(rest, image_token, video_token, run);
            assert(written == repeated(image_token, run) + rest);
            assert(written[0] == image_token);
            assert(text_run(written, image_token, video_token) == 0);
            assert(written.skip(0) == written);
            assert(written.skip(run) == rest);
            written_has_positions(
                tokens,
                grids,
                merge,
                vision_start,
                image_token,
                video_token,
                start + 1,
                position + extent(merged),
            );
        } else {
            let rest = written_from(tokens, counts, image_token, start + 1, seen as int);
            written_has_positions(
                tokens,
                grids,
                merge,
                vision_start,
                image_token,
                video_token,
                start + 1,
                position + 1,
            );
            text_moves_positions(
                token,
                rest,
                grids,
                merge,
                image_token,
                video_token,
                seen,
                position,
            );
        }
    }
}

/// A prompt whose placeholders were expanded has positions under the same grids and the same merge
/// size: one for every token. The grids can be counted, so the positions can be computed if the
/// expanded prompt is no longer than the largest machine integer.
pub proof fn expanded_prompt_has_positions(
    tokens: Seq<i32>,
    grids: Seq<(i32, i32, i32)>,
    merge: usize,
    vision_start: i32,
    image_token: i32,
    video_token: i32,
)
    requires
        expansion_problem(tokens, grids, merge as int, vision_start, image_token) is None,
        image_token != video_token,
        !tokens.contains(video_token),
    ensures
        ({
            let prompt = expanded(tokens, merged_counts(grids, merge as int), image_token);
            let positions = prompt_positions(
                prompt,
                grids,
                merge as int,
                image_token,
                video_token,
            );
            positions is Ok && positions->Ok_0.len() == prompt.len()
        }),
        0 < merge <= i32::MAX,
        grids_fit(grids, merge as int),
{
    let counts = merged_counts(grids, merge as int);
    written_joins(tokens, counts, image_token, 0);
    assert(tokens.take(0) == Seq::<i32>::empty());
    let written = written_from(tokens, counts, image_token, 0, 0);
    assert(expanded(tokens, counts, image_token) == written);
    written_has_positions(
        tokens,
        grids,
        merge as int,
        vision_start,
        image_token,
        video_token,
        0,
        0,
    );
    if tokens[0] == image_token {
        placeholders_are_framed(tokens, tokens.len(), vision_start, image_token, 0);
    }
    assert(written[0] == tokens[0]);
    assert forall|i: int|
        0 <= i < grids.len() && divisible(#[trigger] grids[i], merge as int) implies {
        let merged = merged_grid(grids[i], merge as int);
        &&& i32::MIN <= merged.0 * merged.1 <= i32::MAX
        &&& i32::MIN <= volume(merged) <= i32::MAX
    } by {
        grids_are_sound(grids, merge as int, i);
        sound_grid_has_tokens(grids[i], merge as int, i as usize);
    }
}

} // verus!
