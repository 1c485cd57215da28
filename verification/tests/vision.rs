use qwen_runtime::qwen_mrope::{interleave, rotate_half};
use qwen_runtime::qwen_position::decode_rope_positions;
use qwen_runtime::qwen_vl::{insert_qwen_vl_image_tokens, ExpandedImageTokens, ImageTokenError};
use qwen_runtime::qwen_vl_merge::{merge_llava, MergeError};
use qwen_runtime::qwen_vl_position::{compute_rope_index, RopeIndexError};
use qwen_runtime::qwen_vl_processor::{
    ImageError, ProcessorError, QwenVLProcessor, RgbPixels,
};

#[test]
fn expands_one_placeholder_to_the_merged_grid_count() {
    let mut tokens = vec![1, 100, 103, 101, 42];
    let stats = insert_qwen_vl_image_tokens(&mut tokens, &[(1, 4, 4)], 2, 100, 103)
        .expect("expand image tokens");
    assert_eq!(stats.total_image_tokens, 4);
    assert_eq!(tokens, vec![1, 100, 103, 103, 103, 103, 101, 42]);
}

#[test]
fn expands_multiple_images_in_declared_order() {
    let mut tokens = vec![100, 103, 101, 9, 100, 103, 101];
    let stats = insert_qwen_vl_image_tokens(
        &mut tokens,
        &[(1, 4, 4), (1, 2, 4)],
        2,
        100,
        103,
    )
    .expect("expand image tokens");
    assert_eq!(stats.total_image_tokens, 6);
    assert_eq!(stats, ExpandedImageTokens { image_blocks: 2, total_image_tokens: 6 });
    assert_eq!(tokens.iter().filter(|&&token| token == 103).count(), 6);
    assert_eq!(&tokens[..6], &[100, 103, 103, 103, 103, 101]);
    assert_eq!(&tokens[7..], &[100, 103, 103, 101]);
}

#[test]
fn rejects_missing_extra_and_already_expanded_placeholders() {
    let grids = [(1, 4, 4)];
    for mut tokens in [
        vec![1, 2, 3],
        vec![100, 103, 101, 100, 103, 101],
        vec![100, 103, 103, 101],
    ] {
        assert!(insert_qwen_vl_image_tokens(&mut tokens, &grids, 2, 100, 103).is_err());
    }
}

#[test]
fn rejects_unframed_and_nondivisible_image_grids() {
    let mut unframed = vec![1, 103, 2];
    assert!(insert_qwen_vl_image_tokens(&mut unframed, &[(1, 4, 4)], 2, 100, 103).is_err());
    let mut nondivisible = vec![100, 103, 101];
    assert!(insert_qwen_vl_image_tokens(
        &mut nondivisible,
        &[(1, 3, 4)],
        2,
        100,
        103,
    )
    .is_err());
}

#[test]
fn every_image_token_error_has_its_input() {
    let framed = vec![100, 103, 101];
    let expand = |tokens: &[i32], grids: &[(i32, i32, i32)], merge: usize, start: i32| {
        let mut prompt = tokens.to_vec();
        let error = insert_qwen_vl_image_tokens(&mut prompt, grids, merge, start, 103)
            .expect_err("refused");
        assert_eq!(prompt, tokens);
        error
    };
    assert_eq!(expand(&[], &[(1, 4, 4)], 2, 100), ImageTokenError::EmptyPrompt);
    assert_eq!(expand(&framed, &[], 2, 100), ImageTokenError::EmptyGrids);
    assert_eq!(expand(&framed, &[(1, 4, 4)], 0, 100), ImageTokenError::MergeZero);
    assert_eq!(
        expand(&framed, &[(1, 4, 4)], i32::MAX as usize + 1, 100),
        ImageTokenError::MergeTooLarge
    );
    assert_eq!(expand(&framed, &[(1, 4, 4), (0, 4, 4)], 2, 100), ImageTokenError::GridNotPositive(1));
    assert_eq!(expand(&framed, &[(1, 4, 5)], 2, 100), ImageTokenError::GridNotDivisible(0));
    assert_eq!(
        expand(&framed, &[(2, 65_536, 65_536)], 1, 100),
        ImageTokenError::GridTooLarge(0)
    );
    assert_eq!(
        expand(&framed, &[(1, 4, 4), (1, 4, 4)], 2, 100),
        ImageTokenError::PlaceholderCount { placeholders: 1, images: 2 }
    );
    assert_eq!(expand(&framed, &[(1, 4, 4)], 2, i32::MAX), ImageTokenError::VisionEndOverflow);
    assert_eq!(
        expand(&[100, 103, 101, 7, 103], &[(1, 4, 4), (1, 4, 4)], 2, 100),
        ImageTokenError::NotFramed(1)
    );
}

#[test]
fn scatters_multiple_image_features_in_token_order() {
    let sources = merge_llava(9, &[2, 2], &[1, 4, 2], &[5, 9, 6, 9]).expect("merge features");
    let text = [[0.0f32, 0.0]; 4];
    let vision = [[1.0f32, 2.0], [3.0, 4.0]];
    let merged: Vec<f32> = sources
        .iter()
        .enumerate()
        .flat_map(|(token, source)| match source {
            Some(feature) => vision[*feature],
            None => text[token],
        })
        .collect();
    assert_eq!(merged, vec![0.0, 0.0, 1.0, 2.0, 0.0, 0.0, 3.0, 4.0]);
}

#[test]
fn rejects_feature_and_image_token_cardinality_mismatch() {
    assert!(merge_llava(9, &[2, 2], &[1, 1, 2], &[9]).is_err());
}

#[test]
fn every_merge_error_has_its_input() {
    assert_eq!(merge_llava(9, &[2], &[1, 1, 2], &[9]), Err(MergeError::FeatureRank));
    assert_eq!(merge_llava(9, &[1, 2], &[1, 2], &[9]), Err(MergeError::EmbeddingRank));
    assert_eq!(merge_llava(9, &[1, 2], &[1, 1, 3], &[9]), Err(MergeError::WidthMismatch));
    assert_eq!(merge_llava(9, &[2, 2], &[1, 1, 2], &[9]), Err(MergeError::CountMismatch));
    assert_eq!(merge_llava(9, &[1, 2, 2], &[1, 2, 2], &[9, 9]), Ok(vec![Some(0), Some(1)]));
}

#[test]
fn computes_text_image_axes_and_signed_delta() {
    let positions = compute_rope_index(
        &[1, 100, 103, 103, 103, 103, 101, 9],
        &[(1, 4, 4)],
        2,
        103,
        104,
    )
    .expect("positions");
    assert_eq!(positions.axes[0], vec![0, 1, 2, 2, 2, 2, 4, 5]);
    assert_eq!(positions.axes[1], vec![0, 1, 2, 2, 3, 3, 4, 5]);
    assert_eq!(positions.axes[2], vec![0, 1, 2, 3, 2, 3, 4, 5]);
    assert_eq!(positions.rope_delta, -2);
}

#[test]
fn rejects_grid_and_token_run_mismatches() {
    assert!(compute_rope_index(&[103], &[(1, 4, 4)], 2, 103, 104).is_err());
    assert!(compute_rope_index(&[103; 4], &[], 2, 103, 104).is_err());
}

#[test]
fn every_rope_index_error_has_its_input() {
    let index = |tokens: &[i32], grids: &[(i32, i32, i32)], merge: usize| {
        compute_rope_index(tokens, grids, merge, 103, 104).map(|_| ()).expect_err("refused")
    };
    assert_eq!(index(&[], &[], 2), RopeIndexError::EmptyPrompt);
    assert_eq!(index(&[1], &[], 0), RopeIndexError::MergeZero);
    assert_eq!(index(&[103; 4], &[], 2), RopeIndexError::RunsExceedGrids);
    assert_eq!(index(&[103; 4], &[(1, 3, 4)], 2), RopeIndexError::GridNotDivisible);
    assert_eq!(
        index(&[1, 104], &[(1, 4, 4)], 2),
        RopeIndexError::RunLength { run: 0, found: 1, expected: 4 }
    );
    assert_eq!(index(&[1, 2], &[(1, 4, 4)], 2), RopeIndexError::GridsExceedRuns);
    assert_eq!(index(&[103; 4], &[(1, -4, -4)], 2), RopeIndexError::PositionCount);
}

#[test]
fn text_positions_count_tokens_and_decoding_goes_on() {
    let positions = compute_rope_index(&[7, 8, 9], &[], 2, 103, 104).expect("positions");
    assert_eq!(positions.axes[0], vec![0, 1, 2]);
    assert_eq!(positions.axes[1], vec![0, 1, 2]);
    assert_eq!(positions.axes[2], vec![0, 1, 2]);
    assert_eq!(positions.rope_delta, 0);
    let image = compute_rope_index(
        &[1, 100, 103, 103, 103, 103, 101, 9],
        &[(1, 4, 4)],
        2,
        103,
        104,
    )
    .expect("positions");
    let next = decode_rope_positions(8, 1, image.rope_delta);
    let largest = image.axes.iter().flatten().copied().max().expect("positions");
    assert_eq!(next, vec![largest + 1; 3]);
}

#[test]
fn video_frames_advance_the_temporal_axis() {
    let positions =
        compute_rope_index(&[104; 8], &[(2, 4, 4)], 2, 103, 104).expect("positions");
    assert_eq!(positions.axes[0], vec![0, 0, 0, 0, 1, 1, 1, 1]);
    assert_eq!(positions.axes[1], vec![0, 0, 1, 1, 0, 0, 1, 1]);
    assert_eq!(positions.axes[2], vec![0, 1, 0, 1, 0, 1, 0, 1]);
    assert_eq!(positions.rope_delta, -6);
}

#[test]
fn qwen_position_decode_continues_from_cache_offset_plus_delta() {
    let positions = decode_rope_positions(10, 2, -3);
    assert_eq!(positions.len(), 3 * 1 * 2);
    assert_eq!(positions[0], 7);
}

#[test]
fn qwen_vl_position_decode_continues_from_cache_offset_plus_delta() {
    let values = qwen_runtime::qwen_vl_position::decode_rope_positions(8, 2, -2);
    assert_eq!(values, vec![6, 7, 6, 7, 6, 7]);
}

#[test]
fn interleaving_deals_axes_out_in_turn() {
    let dimensions = interleave(32, &[11, 11, 10]);
    let expected: Vec<i32> = (0..32).map(|column| if column == 31 { 1 } else { column % 3 }).collect();
    assert_eq!(dimensions, expected);
    assert_eq!(interleave(4, &[]), vec![0; 4]);
    assert_eq!(interleave(6, &[2, 1, 2]), vec![0, 1, 2, 0, 0, 2]);
    assert_eq!(rotate_half(9), ((4, 9), (0, 4)));
}

fn processor() -> QwenVLProcessor {
    QwenVLProcessor::new(14, 2, 2, 4 * 28 * 28, 16_384 * 28 * 28).expect("processor")
}

#[test]
fn smart_resize_honors_exact_factor_and_pixel_boundaries() {
    let processor = QwenVLProcessor::new(14, 2, 2, 28 * 28, 56 * 56).expect("processor");
    assert_eq!(processor.smart_resize(1, 1), (28, 28));
    assert_eq!(processor.smart_resize(56, 56), (56, 56));
    let (height, width) = processor.smart_resize(500, 500);
    assert_eq!((height, width), (56, 56));
}

fn resize_in_double_precision(
    processor: &QwenVLProcessor,
    orig_h: u32,
    orig_w: u32,
) -> (u32, u32) {
    let factor = (processor.patch_size * processor.spatial_merge_size) as u32;
    let unit = factor as f64;
    let mut height = ((orig_h as f64 / unit).round() as u32).max(1) * factor;
    let mut width = ((orig_w as f64 / unit).round() as u32).max(1) * factor;
    let pixels = height as usize * width as usize;
    if pixels > processor.max_pixels {
        let scale = (processor.max_pixels as f64 / pixels as f64).sqrt();
        height = ((height as f64 * scale / unit).round() as u32).max(1) * factor;
        width = ((width as f64 * scale / unit).round() as u32).max(1) * factor;
    }
    let pixels = height as usize * width as usize;
    if pixels > processor.max_pixels {
        let scale = (processor.max_pixels as f64 / pixels as f64).sqrt();
        height = ((height as f64 * scale / unit).floor() as u32).max(1) * factor;
        width = ((width as f64 * scale / unit).floor() as u32).max(1) * factor;
    }
    let pixels = height as usize * width as usize;
    if pixels < processor.min_pixels {
        let scale = (processor.min_pixels as f64 / pixels as f64).sqrt();
        height = ((height as f64 * scale / unit).ceil() as u32).max(1) * factor;
        width = ((width as f64 * scale / unit).ceil() as u32).max(1) * factor;
    }
    (height, width)
}

#[test]
fn resizing_agrees_with_double_precision() {
    let mut seed = 0x2545_f491_4f6c_dd1du64;
    let mut next = || {
        seed ^= seed << 13;
        seed ^= seed >> 7;
        seed ^= seed << 17;
        seed
    };
    for _ in 0..4000 {
        let patch = 1 + (next() % 31) as usize;
        let merge = 1 + (next() % 4) as usize;
        let min_pixels = 1 + (next() % 900_000) as usize;
        let max_pixels = min_pixels + (next() % 3_000_000) as usize;
        let processor =
            QwenVLProcessor::new(patch, 2, merge, min_pixels, max_pixels).expect("processor");
        let height = (next() % 9000) as u32;
        let width = (next() % 9000) as u32;
        assert_eq!(
            processor.smart_resize(height, width),
            resize_in_double_precision(&processor, height, width),
            "{processor:?} {height} {width}"
        );
    }
    for k in 1..40u32 {
        for l in 1..40u32 {
            let processor =
                QwenVLProcessor::new(1, 1, 1, (k * k) as usize, (k * k) as usize).expect("processor");
            assert_eq!(
                processor.smart_resize(l, l),
                resize_in_double_precision(&processor, l, l)
            );
        }
    }
}

#[test]
fn sizes_that_machine_integers_do_not_hold_are_told_apart() {
    let processor = QwenVLProcessor::new(1, 1, 65_536, 1, usize::MAX).expect("processor");
    assert_eq!(processor.checked_smart_resize(u32::MAX, 1), None);
    assert_eq!(processor.checked_smart_resize(65_536, 0), Some((65_536, 65_536)));
}

#[test]
fn every_processor_error_has_its_input() {
    let new = |a, b, c, d, e| QwenVLProcessor::new(a, b, c, d, e).expect_err("refused");
    assert_eq!(new(0, 2, 2, 4, 8), ProcessorError::PatchSizeZero);
    assert_eq!(new(14, 0, 2, 4, 8), ProcessorError::TemporalPatchSizeZero);
    assert_eq!(new(14, 2, 0, 4, 8), ProcessorError::SpatialMergeSizeZero);
    assert_eq!(new(14, 2, 2, 0, 8), ProcessorError::MinPixelsZero);
    assert_eq!(new(14, 2, 2, 9, 8), ProcessorError::MaxPixelsTooSmall);
}

fn normalized(byte: u8) -> f32 {
    (byte as f32 / 255.0 - 0.5) / 0.5
}

fn solid(width: u32, height: u32, value: u8) -> RgbPixels {
    RgbPixels { width, height, bytes: vec![value; (3 * width * height) as usize] }
}

#[test]
fn merger_grouped_patch_order_and_grid_are_deterministic() {
    let processor = processor();
    let mut image = solid(56, 56, 0);
    for patch_y in 0..4u32 {
        for patch_x in 0..4u32 {
            let value = (patch_y * 4 + patch_x) as u8 * 10;
            for y in patch_y * 14..(patch_y + 1) * 14 {
                for x in patch_x * 14..(patch_x + 1) * 14 {
                    image.bytes[(3 * (y * 56 + x)) as usize] = value;
                }
            }
        }
    }
    let prepared = processor.prepare_rgb(&image);
    assert_eq!(prepared.grid_thw, (1, 4, 4));
    assert_eq!(prepared.row_width, 3 * 14 * 14);
    assert_eq!(prepared.patches.len(), 32 * prepared.row_width);
    let grouped_patch_ids = [0u8, 1, 4, 5, 2, 3, 6, 7, 8, 9, 12, 13, 10, 11, 14, 15];
    for (row, patch_id) in grouped_patch_ids.into_iter().enumerate() {
        let actual = normalized(prepared.patches[row * 2 * prepared.row_width]);
        let expected = patch_id as f32 * 10.0 / 255.0 * 2.0 - 1.0;
        assert!((actual - expected).abs() < 1e-6);
    }
}

#[test]
fn multiple_images_keep_declared_order() {
    let processor = processor();
    let black = solid(56, 56, 0);
    let white = solid(56, 56, 255);
    let prepared = [processor.prepare_rgb(&black), processor.prepare_rgb(&white)];
    assert_eq!(normalized(prepared[0].patches[0]), -1.0);
    assert_eq!(normalized(prepared[1].patches[0]), 1.0);
}

#[test]
fn colours_and_rows_stand_apart_inside_a_patch() {
    let processor = QwenVLProcessor::new(2, 1, 1, 1, 1 << 20).expect("processor");
    let bytes: Vec<u8> = (0..12).collect();
    let prepared = processor
        .prepare_rgb_bytes(2, 2, bytes)
        .expect("prepared image");
    assert_eq!(prepared.patches, vec![0, 3, 6, 9, 1, 4, 7, 10, 2, 5, 8, 11]);
    assert_eq!(prepared.grid_thw, (1, 1, 1));
}

#[test]
fn resampling_changes_the_size_of_an_image() {
    let processor = QwenVLProcessor::new(14, 2, 2, 28 * 28, 56 * 56).expect("processor");
    let prepared = processor
        .prepare_rgb_bytes(500, 500, vec![200; 3 * 500 * 500])
        .expect("prepared image");
    assert_eq!(prepared.grid_thw, (1, 4, 4));
    assert_eq!(prepared.patches.len(), 2 * 3 * 56 * 56);
    assert!(prepared.patches.iter().all(|&byte| byte == 200));
    let empty = processor.prepare_rgb_bytes(0, 0, Vec::new()).expect("prepared image");
    assert_eq!(empty.patches, vec![0; 2 * 3 * 28 * 28]);
}

#[test]
fn buffers_must_hold_their_pixels() {
    let processor = processor();
    assert_eq!(
        processor.prepare_rgb_bytes(4, 4, vec![0; 47]).map(|_| ()),
        Err(ImageError::BufferTooSmall)
    );
    assert!(processor.prepare_rgb_bytes(4, 4, vec![0; 50]).is_ok());
    let coarse = QwenVLProcessor::new(1 << 33, 1, 1, 1, usize::MAX).expect("processor");
    assert_eq!(
        coarse.prepare_rgb_bytes(1, 1, vec![0; 3]).map(|_| ()),
        Err(ImageError::TooLarge)
    );
}

#[test]
fn long_sides_are_resized() {
    let wide = QwenVLProcessor::new(1, 1, 1, 1, usize::MAX).expect("processor");
    let empty = wide.prepare_rgb_bytes(2_000_000, 0, Vec::new()).expect("prepared image");
    assert_eq!(empty.grid_thw, (1, 1, 2_000_000));
    assert_eq!(empty.patches, vec![0; 3 * 2_000_000]);

    let pixels: Vec<u8> = (0..15_000_000u32).map(|byte| (byte % 251) as u8).collect();
    let kept = wide.prepare_rgb_bytes(5_000_000, 1, pixels).expect("prepared image");
    assert_eq!(kept.grid_thw, (1, 1, 5_000_000));
    assert_eq!(kept.patches[14_999_996..], [236, 237, 238, 239]);

    let narrow = QwenVLProcessor::new(1, 1, 1, 1, 64).expect("processor");
    let shrunk = narrow
        .prepare_rgb_bytes(5_000_000, 1, vec![200; 15_000_000])
        .expect("prepared image");
    assert!(shrunk.patches.iter().all(|&byte| byte == 200));

    let doubled = QwenVLProcessor::new(2, 1, 1, 1, usize::MAX).expect("processor");
    let grown = doubled
        .prepare_rgb_bytes(5_000_000, 1, vec![90; 15_000_000])
        .expect("prepared image");
    assert_eq!(grown.grid_thw, (1, 1, 2_500_000));
    assert!(grown.patches.iter().all(|&byte| byte == 90));
    let odd = doubled
        .prepare_rgb_bytes(5_000_001, 1, vec![90; 15_000_003])
        .expect("prepared image");
    assert_eq!(odd.grid_thw, (1, 1, 2_500_001));
    assert!(odd.patches.iter().all(|&byte| byte == 90));
    let stretched = doubled
        .prepare_rgb_bytes(1_500_001, 1, vec![77; 4_500_003])
        .expect("prepared image");
    assert_eq!(stretched.grid_thw, (1, 1, 750_001));
    assert!(stretched.patches.iter().all(|&byte| byte == 77));
}

#[test]
fn large_image_tokens_are_compared_in_single_precision() {
    let features = [1, 2];
    let embeddings = [1, 3, 2];
    let ids = [16_777_215, 16_777_216, 16_777_217];
    assert_eq!(
        merge_llava(16_777_217, &features, &embeddings, &ids),
        Ok(vec![None, Some(0), None])
    );
    assert_eq!(
        merge_llava(16_777_215, &features, &embeddings, &ids),
        Ok(vec![Some(0), None, None])
    );
    let ids = [-16_777_220, 16_777_220, 2_147_483_520];
    assert_eq!(
        merge_llava(16_777_219, &features, &embeddings, &ids),
        Ok(vec![None, Some(0), None])
    );
    assert_eq!(
        merge_llava(-16_777_219, &features, &embeddings, &ids),
        Ok(vec![Some(0), None, None])
    );
    assert_eq!(
        merge_llava(2_147_483_583, &features, &embeddings, &ids),
        Ok(vec![None, None, Some(0)])
    );
    for token in [7, -16_777_217, 33_554_435, 1_000_000_007, 2_000_000_001, i32::MIN] {
        let rounded = token as f32 as i32;
        assert_eq!(
            merge_llava(token, &features, &[1, 1, 2], &[rounded]),
            Ok(vec![Some(0)])
        );
    }
}

#[test]
fn an_expanded_prompt_has_one_position_per_token() {
    let grids = [(1, 4, 6), (2, 2, 2)];
    let mut tokens = vec![7, 100, 103, 101, 8, 100, 103, 101];
    insert_qwen_vl_image_tokens(&mut tokens, &grids, 2, 100, 103).expect("expand image tokens");
    assert_eq!(tokens.len(), 6 + 6 + 2);
    let positions = compute_rope_index(&tokens, &grids, 2, 103, 104).expect("positions");
    assert!(positions.axes.iter().all(|axis| axis.len() == tokens.len()));
}

#[test]
fn resized_images_keep_to_the_pixel_bounds() {
    let processor = QwenVLProcessor::new(14, 2, 2, 28 * 28, 100 * 28 * 28).expect("processor");
    for (height, width) in [(300, 280), (281, 1000), (1000, 3000), (4000, 3999), (700, 9000)] {
        let (tall, wide) = processor.smart_resize(height, width);
        assert!(tall > 28 && wide > 28);
        assert!(tall as usize * wide as usize <= 100 * 28 * 28);
    }
    assert_eq!(processor.smart_resize(281, 280), (280, 280));
    assert_eq!(processor.smart_resize(28, 28_000_000).0, 28);

    let large = QwenVLProcessor::new(14, 2, 2, 3_000_017, 9_000_000).expect("processor");
    for (height, width) in [(1, 1), (0, 0), (28, 1000), (999, 1001), (1, 30_000)] {
        let (tall, wide) = large.smart_resize(height, width);
        assert!(tall as usize * wide as usize >= 3_000_017);
    }
    assert_eq!(large.smart_resize(1, 1), (1736, 1736));
}
