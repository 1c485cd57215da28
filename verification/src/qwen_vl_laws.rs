//! When images fit a prompt, and how many bytes their patches have.

use vstd::prelude::*;
use crate::qwen_vl::{expansion_problem, first_unframed, grids_problem, occurrences};
use crate::qwen_vl_merge::{merge_problem, product, MergeError};
use crate::qwen_vl_processor::{merged_patches_stand_together, PatchByte, QwenVLProcessor};

verus! {

/// Grids have no problem exactly if every one is positive, divisible and can be counted.
proof fn every_grid_is_checked(grids: Seq<(i32, i32, i32)>, merge: int)
    ensures
        grids_problem(grids, merge) is None <==> forall|i: int|
            0 <= i < grids.len() ==> {
                let grid = #[trigger] grids[i];
                &&& grid.0 > 0 && grid.1 > 0 && grid.2 > 0
                &&& grid.1 as int % merge == 0 && grid.2 as int % merge == 0
                &&& grid.0 * (grid.1 as int / merge) * (grid.2 as int / merge) <= i32::MAX
            },
    decreases grids.len(),
{
    if grids.len() > 0 {
        let front = grids.drop_last();
        every_grid_is_checked(front, merge);
        assert(grids.last() == grids[grids.len() - 1]);
        if grids_problem(grids, merge) is None {
            assert forall|i: int| 0 <= i < grids.len() implies {
                let grid = #[trigger] grids[i];
                &&& grid.0 > 0 && grid.1 > 0 && grid.2 > 0
                &&& grid.1 as int % merge == 0 && grid.2 as int % merge == 0
                &&& grid.0 * (grid.1 as int / merge) * (grid.2 as int / merge) <= i32::MAX
            } by {
                if i < front.len() {
                    assert(front[i] == grids[i]);
                }
            }
        }
        if forall|i: int|
            0 <= i < grids.len() ==> {
                let grid = #[trigger] grids[i];
                &&& grid.0 > 0 && grid.1 > 0 && grid.2 > 0
                &&& grid.1 as int % merge == 0 && grid.2 as int % merge == 0
                &&& grid.0 * (grid.1 as int / merge) * (grid.2 as int / merge) <= i32::MAX
            } {
            assert forall|i: int| 0 <= i < front.len() implies {
                let grid = #[trigger] front[i];
                &&& grid.0 > 0 && grid.1 > 0 && grid.2 > 0
                &&& grid.1 as int % merge == 0 && grid.2 as int % merge == 0
                &&& grid.0 * (grid.1 as int / merge) * (grid.2 as int / merge) <= i32::MAX
            } by {
                assert(grids[i] == front[i]);
            }
        }
    }
}

proof fn every_frame_is_checked(
    tokens: Seq<i32>,
    count: nat,
    vision_start: i32,
    image_token: i32,
)
    requires
        count <= tokens.len(),
    ensures
        first_unframed(tokens, count, vision_start, image_token) is None <==> forall|i: int|
            0 <= i < count && #[trigger] tokens[i] == image_token ==> 0 < i < tokens.len() - 1
                && tokens[i - 1] == vision_start && tokens[i + 1] == vision_start + 1,
    decreases count,
{
    if count > 0 {
        every_frame_is_checked(tokens, (count - 1) as nat, vision_start, image_token);
        let last = tokens[count - 1];
    }
}

/// Placeholders are expanded exactly if there are a prompt, images and a merge size, every grid is
/// positive, divisible by the merge size and countable, there is one placeholder per image, and every
/// placeholder stands between the start marker and the token after it, which ends it.
pub proof fn fitting_prompts_are_expanded(
    tokens: Seq<i32>,
    grids: Seq<(i32, i32, i32)>,
    merge: usize,
    vision_start: i32,
    image_token: i32,
)
    ensures
        expansion_problem(tokens, grids, merge as int, vision_start, image_token) is None <==> {
            &&& tokens.len() > 0
            &&& grids.len() > 0
            &&& 0 < merge <= 0x7fff_ffff
            &&& forall|i: int|
                0 <= i < grids.len() ==> {
                    let grid = #[trigger] grids[i];
                    &&& grid.0 > 0 && grid.1 > 0 && grid.2 > 0
                    &&& grid.1 as int % merge as int == 0 && grid.2 as int % merge as int == 0
                    &&& grid.0 * (grid.1 as int / merge as int) * (grid.2 as int / merge as int)
                        <= i32::MAX
                }
            &&& occurrences(tokens, image_token) == grids.len()
            &&& vision_start < i32::MAX
            &&& forall|i: int|
                0 <= i < tokens.len() && #[trigger] tokens[i] == image_token ==> 0 < i < tokens.len()
                    - 1 && tokens[i - 1] == vision_start && tokens[i + 1] == vision_start + 1
        },
{
    every_grid_is_checked(grids, merge as int);
    every_frame_is_checked(tokens, tokens.len(), vision_start, image_token);
}

/// Features are merged exactly if they are rows as wide as the embeddings, and as many as there are
/// image tokens.
pub proof fn fitting_features_are_merged(
    image_token: i32,
    rows: i32,
    width: i32,
    embedding_shape: Seq<i32>,
    input_ids: Seq<i32>,
)
    ensures
        merge_problem(image_token, seq![rows, width], embedding_shape, input_ids) is None <==> {
            &&& embedding_shape.len() == 3
            &&& embedding_shape[2] == width
            &&& occurrences(input_ids, image_token) == rows
        },
        merge_problem(image_token, seq![rows], embedding_shape, input_ids) == Some(
            MergeError::FeatureRank,
        ),
{
    let shape = seq![rows, width];
    assert(shape.drop_last() =~= seq![rows]);
    assert(seq![rows].drop_last() =~= Seq::<i32>::empty());
    reveal_with_fuel(product, 2);
}

/// The patches of an image of whole merged patches hold every byte of it once per frame.
pub proof fn patches_hold_every_byte_per_frame(
    processor: QwenVLProcessor,
    rows: nat,
    columns: nat,
)
    requires
        processor.wf(),
    ensures
        ({
            let side = processor.patch_size * processor.spatial_merge_size;
            let height = rows * side;
            let width = columns * side;
            processor.patch_bytes(height, width) == processor.temporal_patch_size * (3 * (height
                * width))
        }),
{
    let p = processor.patch_size as int;
    let m = processor.spatial_merge_size as int;
    let t = processor.temporal_patch_size as int;
    let side = p * m;
    whole_blocks(rows as int, p, m);
    whole_blocks(columns as int, p, m);
    let a = rows as int;
    let b = columns as int;
    let q = p * m;
    let mm = m * m;
    let pp = p * p;
    let x = a * b;
    let y = x * mm;
    assert((a * q) * (b * q) == x * (q * q)) by (nonlinear_arith)
        requires
            x == a * b,
    ;
    assert(q * q == mm * pp) by (nonlinear_arith)
        requires
            q == p * m,
            mm == m * m,
            pp == p * p,
    ;
    assert(x * (mm * pp) == y * pp) by (nonlinear_arith)
        requires
            y == x * mm,
    ;
    assert(x * m * m == y) by (nonlinear_arith)
        requires
            y == x * mm,
            mm == m * m,
    ;
    let z = y * t * 3;
    assert(z * p * p == z * pp) by (nonlinear_arith)
        requires
            pp == p * p,
    ;
    assert(z * pp == t * (3 * (y * pp))) by (nonlinear_arith)
        requires
            z == y * t * 3,
    ;
}

proof fn whole_blocks(count: int, patch: int, merge: int)
    requires
        count >= 0,
        patch > 0,
        merge > 0,
    ensures
        count * (patch * merge) / patch / merge == count,
{
    assert(count * (patch * merge) == (count * merge) * patch) by (nonlinear_arith);
    vstd::arithmetic::div_mod::lemma_div_multiples_vanish(count * merge, patch);
    vstd::arithmetic::div_mod::lemma_div_multiples_vanish(count, merge);
    assert(patch * (count * merge) == (count * merge) * patch) by (nonlinear_arith);
    assert(merge * count == count * merge) by (nonlinear_arith);
}

/// Where a pixel's colour stands among the patches of an image of `columns` merged patches a row:
/// merged patches come row by row, in each its patches row by row, in each its frames, in each its
/// colours, and each colour line by line. Every frame holds the same pixels.
pub proof fn pixels_stand_patch_by_patch(
    processor: QwenVLProcessor,
    columns: nat,
    patch_row: int,
    patch_column: int,
    line: int,
    column: int,
    colour: int,
    frame: int,
)
    requires
        processor.wf(),
        0 <= patch_row,
        0 <= patch_column < columns * processor.spatial_merge_size,
        0 <= line < processor.patch_size,
        0 <= column < processor.patch_size,
        0 <= colour < 3,
        0 <= frame < processor.temporal_patch_size,
    ensures
        ({
            let p = processor.patch_size as int;
            let m = processor.spatial_merge_size as int;
            let t = processor.temporal_patch_size as int;
            let width = columns * (p * m);
            let merged = (patch_row / m) * columns + patch_column / m;
            let patch = (merged * m + patch_row % m) * m + patch_column % m;
            let plane = (patch * t + frame) * 3 + colour;
            let place = (plane * p + line) * p + column;
            let y = patch_row * p + line;
            let x = patch_column * p + column;
            processor.patch_source(width, place) == 3 * (y * width + x) + colour
        }),
{
    let p = processor.patch_size as int;
    let m = processor.spatial_merge_size as int;
    let width = columns * (p * m);
    whole_blocks(columns as int, p, m);
    vstd::arithmetic::div_mod::lemma_fundamental_div_mod(patch_row, m);
    vstd::arithmetic::div_mod::lemma_mod_bound(patch_row, m);
    vstd::arithmetic::div_mod::lemma_div_pos_is_pos(patch_row, m);
    vstd::arithmetic::div_mod::lemma_fundamental_div_mod(patch_column, m);
    vstd::arithmetic::div_mod::lemma_mod_bound(patch_column, m);
    vstd::arithmetic::div_mod::lemma_div_pos_is_pos(patch_column, m);
    assert(columns * m == m * columns) by (nonlinear_arith);
    vstd::arithmetic::div_mod::lemma_multiply_divide_lt(patch_column, m, columns as int);
    assert(m * (patch_row / m) == (patch_row / m) * m) by (nonlinear_arith);
    assert(m * (patch_column / m) == (patch_column / m) * m) by (nonlinear_arith);
    assert(width >= 0) by (nonlinear_arith)
        requires
            width == columns * (p * m),
            columns >= 0,
            p > 0,
            m > 0,
    ;
    merged_patches_stand_together(
        processor,
        width,
        PatchByte {
            block_y: patch_row / m,
            block_x: patch_column / m,
            inner_y: patch_row % m,
            inner_x: patch_column % m,
            frame,
            colour,
            dy: line,
            dx: column,
        },
    );
}

} // verus!
