//! Sizes, resizing and patch order of images.

use vstd::arithmetic::div_mod::{
    lemma_div_pos_is_pos, lemma_fundamental_div_mod, lemma_fundamental_div_mod_converse,
    lemma_mod_bound, lemma_multiply_divide_lt,
};
use vstd::prelude::*;
use crate::binary64::{
    ceiling_of, converted, floor_of, integer_quotients_are_exact, product, quotient, round_of,
    saturated, square_root, Binary, Double,
};

verus! {

/// How images are brought into patches.
#[derive(Debug, Clone, Copy, PartialEq, Eq, Structural)]
pub struct QwenVLProcessor {
    pub patch_size: usize,
    pub temporal_patch_size: usize,
    pub spatial_merge_size: usize,
    pub min_pixels: usize,
    pub max_pixels: usize,
}

/// Why a processor cannot be set up.
#[derive(Debug, Clone, Copy, PartialEq, Eq, Structural)]
pub enum ProcessorError {
    PatchSizeZero,
    TemporalPatchSizeZero,
    SpatialMergeSizeZero,
    MinPixelsZero,
    MaxPixelsTooSmall,
}

/// How a quotient becomes an integer.
#[derive(Debug, Clone, Copy, PartialEq, Eq, Structural)]
pub enum Rounding {
    Nearest,
    Down,
    Up,
}

/// A number as an integer of the machine.
pub open spec fn integer_of(value: Binary, rounding: Rounding) -> nat {
    saturated(
        match rounding {
            Rounding::Nearest => round_of(value),
            Rounding::Down => floor_of(value),
            Rounding::Up => ceiling_of(value),
        },
    )
}

/// At least one.
pub open spec fn at_least_one(n: nat) -> nat {
    if n == 0 {
        1
    } else {
        n
    }
}

/// A side of so many units.
pub open spec fn side(units: nat, factor: nat) -> Option<nat> {
    if at_least_one(units) * factor <= u32::MAX {
        Some(at_least_one(units) * factor)
    } else {
        None
    }
}

/// Both sides of an image whose pixels can be counted.
pub open spec fn sides(height_units: nat, width_units: nat, factor: nat) -> Option<(nat, nat)> {
    match (side(height_units, factor), side(width_units, factor)) {
        (Some(height), Some(width)) => if height * width <= usize::MAX {
            Some((height, width))
        } else {
            None
        },
        _ => None,
    }
}

/// Units in a given side.
pub open spec fn given_units(given: nat, factor: nat) -> nat {
    if given == 0 {
        0
    } else {
        integer_of(quotient(converted(given), converted(factor)), Rounding::Nearest)
    }
}

/// What both sides are multiplied by to reach so many pixels.
pub open spec fn scale_to(pixels: nat, height: nat, width: nat) -> Binary {
    square_root(quotient(converted(pixels), converted(height * width)))
}

/// Units in a scaled side.
pub open spec fn scaled_units(length: nat, scale: Binary, factor: nat, rounding: Rounding) -> nat {
    integer_of(quotient(product(converted(length), scale), converted(factor)), rounding)
}

/// Sides scaled to so many pixels.
pub open spec fn rescaled(
    size: (nat, nat),
    pixels: nat,
    factor: nat,
    rounding: Rounding,
) -> Option<(nat, nat)> {
    let scale = scale_to(pixels, size.0, size.1);
    sides(
        scaled_units(size.0, scale, factor, rounding),
        scaled_units(size.1, scale, factor, rounding),
        factor,
    )
}

impl QwenVLProcessor {
    /// Whether the processor could have been set up.
    pub open spec fn wf(&self) -> bool {
        &&& self.patch_size > 0
        &&& self.temporal_patch_size > 0
        &&& self.spatial_merge_size > 0
        &&& self.min_pixels > 0
        &&& self.max_pixels >= self.min_pixels
    }

    /// The first reason not to set a processor up.
    pub open spec fn setup_problem(
        patch_size: usize,
        temporal_patch_size: usize,
        spatial_merge_size: usize,
        min_pixels: usize,
        max_pixels: usize,
    ) -> Option<ProcessorError> {
        if patch_size == 0 {
            Some(ProcessorError::PatchSizeZero)
        } else if temporal_patch_size == 0 {
            Some(ProcessorError::TemporalPatchSizeZero)
        } else if spatial_merge_size == 0 {
            Some(ProcessorError::SpatialMergeSizeZero)
        } else if min_pixels == 0 {
            Some(ProcessorError::MinPixelsZero)
        } else if max_pixels < min_pixels {
            Some(ProcessorError::MaxPixelsTooSmall)
        } else {
            None
        }
    }

    /// Sets a processor up.
    pub fn new(
        patch_size: usize,
        temporal_patch_size: usize,
        spatial_merge_size: usize,
        min_pixels: usize,
        max_pixels: usize,
    ) -> (result: Result<Self, ProcessorError>)
        ensures
            match result {
                Ok(processor) => {
                    &&& processor.wf()
                    &&& processor == (QwenVLProcessor {
                        patch_size,
                        temporal_patch_size,
                        spatial_merge_size,
                        min_pixels,
                        max_pixels,
                    })
                },
                Err(problem) => QwenVLProcessor::setup_problem(
                    patch_size,
                    temporal_patch_size,
                    spatial_merge_size,
                    min_pixels,
                    max_pixels,
                ) == Some(problem),
            },
    {
        if patch_size == 0 {
            return Err(ProcessorError::PatchSizeZero);
        }
        if temporal_patch_size == 0 {
            return Err(ProcessorError::TemporalPatchSizeZero);
        }
        if spatial_merge_size == 0 {
            return Err(ProcessorError::SpatialMergeSizeZero);
        }
        if min_pixels == 0 {
            return Err(ProcessorError::MinPixelsZero);
        }
        if max_pixels < min_pixels {
            return Err(ProcessorError::MaxPixelsTooSmall);
        }
        Ok(
            QwenVLProcessor {
                patch_size,
                temporal_patch_size,
                spatial_merge_size,
                min_pixels,
                max_pixels,
            },
        )
    }

    /// Pixels along a side of a merged patch.
    pub open spec fn factor(&self) -> nat {
        (self.patch_size * self.spatial_merge_size) as nat
    }

    /// The size to which an image is brought, if machine integers hold it: both sides are the
    /// multiples of the merged patch nearest to the given, scaled down where that makes too many
    /// pixels and up where it makes too few.
    pub open spec fn resized(&self, height: nat, width: nat) -> Option<(nat, nat)> {
        let factor = self.factor();
        if factor > u32::MAX {
            None
        } else {
            match sides(given_units(height, factor), given_units(width, factor), factor) {
                None => None,
                Some(first) => match self.shrunk(first, factor, Rounding::Nearest) {
                    None => None,
                    Some(second) => match self.shrunk(second, factor, Rounding::Down) {
                        None => None,
                        Some(third) => if third.0 * third.1 < self.min_pixels {
                            rescaled(third, self.min_pixels as nat, factor, Rounding::Up)
                        } else {
                            Some(third)
                        },
                    },
                },
            }
        }
    }

    /// A size scaled down where it has too many pixels.
    pub open spec fn shrunk(&self, size: (nat, nat), factor: nat, rounding: Rounding) -> Option<
        (nat, nat),
    > {
        if size.0 * size.1 > self.max_pixels {
            rescaled(size, self.max_pixels as nat, factor, rounding)
        } else {
            Some(size)
        }
    }
}

/// A size with at least one pixel.
pub open spec fn has_pixels(size: (nat, nat)) -> bool {
    &&& 0 < size.0 <= u32::MAX
    &&& 0 < size.1 <= u32::MAX
    &&& 0 < size.0 * size.1 <= usize::MAX
}

/// Sides of whole units have pixels.
pub(crate) proof fn sides_have_pixels(height_units: nat, width_units: nat, factor: nat)
    requires
        factor > 0,
    ensures
        sides(height_units, width_units, factor) matches Some(size) ==> has_pixels(size),
{
    let h = at_least_one(height_units);
    let w = at_least_one(width_units);
    assert(h * factor > 0 && w * factor > 0) by (nonlinear_arith)
        requires
            h > 0,
            w > 0,
            factor > 0,
    ;
    assert((h * factor) * (w * factor) > 0) by (nonlinear_arith)
        requires
            h * factor > 0,
            w * factor > 0,
    ;
}

fn checked_side(units: u32, factor: u32) -> (length: Option<u32>)
    ensures
        match length {
            Some(length) => side(units as nat, factor as nat) == Some(length as nat),
            None => side(units as nat, factor as nat) is None,
        },
{
    let whole: u32 = if units == 0 {
        1
    } else {
        units
    };
    whole.checked_mul(factor)
}

fn checked_sides(height_units: u32, width_units: u32, factor: u32) -> (size: Option<(u32, u32)>)
    ensures
        match size {
            Some(size) => sides(height_units as nat, width_units as nat, factor as nat) == Some(
                (size.0 as nat, size.1 as nat),
            ),
            None => sides(height_units as nat, width_units as nat, factor as nat) is None,
        },
{
    match (checked_side(height_units, factor), checked_side(width_units, factor)) {
        (Some(height), Some(width)) => match (height as usize).checked_mul(width as usize) {
            Some(_) => Some((height, width)),
            None => None,
        },
        _ => None,
    }
}

fn units_of(given: u32, factor: u32) -> (units: u32)
    requires
        factor > 0,
    ensures
        units == given_units(given as nat, factor as nat),
{
    if given == 0 {
        0
    } else {
        Double::from_integer(given as u64).divide(&Double::from_integer(factor as u64)).round()
    }
}

fn rescale(size: (u32, u32), pixels: usize, factor: u32, rounding: Rounding) -> (result: Option<
    (u32, u32),
>)
    requires
        has_pixels((size.0 as nat, size.1 as nat)),
        pixels > 0,
        factor > 0,
    ensures
        match result {
            Some(result) => rescaled(
                (size.0 as nat, size.1 as nat),
                pixels as nat,
                factor as nat,
                rounding,
            ) == Some((result.0 as nat, result.1 as nat)),
            None => rescaled(
                (size.0 as nat, size.1 as nat),
                pixels as nat,
                factor as nat,
                rounding,
            ) is None,
        },
{
    let present: usize = size.0 as usize * size.1 as usize;
    let scale: Double = Double::from_integer(pixels as u64).divide(
        &Double::from_integer(present as u64),
    ).root();
    let unit: Double = Double::from_integer(factor as u64);
    let tall: Double = Double::from_integer(size.0 as u64).multiply(&scale).divide(&unit);
    let wide: Double = Double::from_integer(size.1 as u64).multiply(&scale).divide(&unit);
    let (height_units, width_units): (u32, u32) = match rounding {
        Rounding::Nearest => (tall.round(), wide.round()),
        Rounding::Down => (tall.floor(), wide.floor()),
        Rounding::Up => (tall.ceiling(), wide.ceiling()),
    };
    checked_sides(height_units, width_units, factor)
}

impl QwenVLProcessor {
    /// The size to which an image is brought, or `None` where machine integers do not hold it.
    pub fn checked_smart_resize(&self, orig_h: u32, orig_w: u32) -> (result: Option<(u32, u32)>)
        requires
            self.wf(),
        ensures
            match result {
                Some(size) => self.resized(orig_h as nat, orig_w as nat) == Some(
                    (size.0 as nat, size.1 as nat),
                ),
                None => self.resized(orig_h as nat, orig_w as nat) is None,
            },
    {
        let factor: usize = match self.patch_size.checked_mul(self.spatial_merge_size) {
            Some(factor) => factor,
            None => {
                return None;
            },
        };
        if factor > u32::MAX as usize {
            return None;
        }
        let factor: u32 = factor as u32;
        assert(factor > 0) by (nonlinear_arith)
            requires
                factor == self.patch_size * self.spatial_merge_size,
                self.patch_size > 0,
                self.spatial_merge_size > 0,
        ;
        let height_units: u32 = units_of(orig_h, factor);
        let width_units: u32 = units_of(orig_w, factor);
        proof {
            sides_have_pixels(height_units as nat, width_units as nat, factor as nat);
        }
        let first: (u32, u32) = match checked_sides(height_units, width_units, factor) {
            Some(size) => size,
            None => {
                return None;
            },
        };
        let second: (u32, u32) = match self.shrink(first, factor, Rounding::Nearest) {
            Some(size) => size,
            None => {
                return None;
            },
        };
        let third: (u32, u32) = match self.shrink(second, factor, Rounding::Down) {
            Some(size) => size,
            None => {
                return None;
            },
        };
        if third.0 as usize * (third.1 as usize) < self.min_pixels {
            rescale(third, self.min_pixels, factor, Rounding::Up)
        } else {
            Some(third)
        }
    }

    fn shrink(&self, size: (u32, u32), factor: u32, rounding: Rounding) -> (result: Option<
        (u32, u32),
    >)
        requires
            self.wf(),
            has_pixels((size.0 as nat, size.1 as nat)),
            factor > 0,
        ensures
            match result {
                Some(result) => {
                    &&& self.shrunk((size.0 as nat, size.1 as nat), factor as nat, rounding)
                        == Some((result.0 as nat, result.1 as nat))
                    &&& has_pixels((result.0 as nat, result.1 as nat))
                },
                None => self.shrunk(
                    (size.0 as nat, size.1 as nat),
                    factor as nat,
                    rounding,
                ) is None,
            },
    {
        if size.0 as usize * size.1 as usize > self.max_pixels {
            proof {
                let scale = scale_to(self.max_pixels as nat, size.0 as nat, size.1 as nat);
                sides_have_pixels(
                    scaled_units(size.0 as nat, scale, factor as nat, rounding),
                    scaled_units(size.1 as nat, scale, factor as nat, rounding),
                    factor as nat,
                );
            }
            rescale(size, self.max_pixels, factor, rounding)
        } else {
            Some(size)
        }
    }

    /// The size to which an image is brought.
    pub fn smart_resize(&self, orig_h: u32, orig_w: u32) -> (size: (u32, u32))
        requires
            self.wf(),
            self.resized(orig_h as nat, orig_w as nat) is Some,
        ensures
            self.resized(orig_h as nat, orig_w as nat) == Some((size.0 as nat, size.1 as nat)),
    {
        self.checked_smart_resize(orig_h, orig_w).unwrap()
    }
}

/// Both sides of a resized image consist of whole merged patches, at least one.
pub proof fn sides_are_whole_patches(processor: QwenVLProcessor, height: nat, width: nat)
    requires
        processor.wf(),
    ensures
        processor.resized(height, width) matches Some(size) ==> exists|rows: nat, columns: nat|
            rows > 0 && columns > 0 && size == #[trigger] patches_size(
                rows,
                columns,
                processor.factor(),
            ),
{
    let factor = processor.factor();
    if let Some(size) = processor.resized(height, width) {
        let first = sides(given_units(height, factor), given_units(width, factor), factor)->0;
        let second = processor.shrunk(first, factor, Rounding::Nearest)->0;
        let third = processor.shrunk(second, factor, Rounding::Down)->0;
        whole_sides(given_units(height, factor), given_units(width, factor), factor);
        shrunk_is_whole(processor, first, factor, Rounding::Nearest);
        shrunk_is_whole(processor, second, factor, Rounding::Down);
        let scale = scale_to(processor.min_pixels as nat, third.0, third.1);
        whole_sides(
            scaled_units(third.0, scale, factor, Rounding::Up),
            scaled_units(third.1, scale, factor, Rounding::Up),
            factor,
        );
    }
}

/// The size of an image of so many merged patches.
pub open spec fn patches_size(rows: nat, columns: nat, factor: nat) -> (nat, nat) {
    (rows * factor, columns * factor)
}

spec fn whole_patches(size: (nat, nat), factor: nat) -> bool {
    exists|rows: nat, columns: nat|
        rows > 0 && columns > 0 && size == #[trigger] patches_size(rows, columns, factor)
}

proof fn whole_sides(height_units: nat, width_units: nat, factor: nat)
    ensures
        sides(height_units, width_units, factor) matches Some(size) ==> whole_patches(size, factor),
{
    if let Some(size) = sides(height_units, width_units, factor) {
        assert(size == patches_size(
            at_least_one(height_units),
            at_least_one(width_units),
            factor,
        ));
    }
}

proof fn shrunk_is_whole(
    processor: QwenVLProcessor,
    size: (nat, nat),
    factor: nat,
    rounding: Rounding,
)
    requires
        whole_patches(size, factor),
    ensures
        processor.shrunk(size, factor, rounding) matches Some(smaller) ==> whole_patches(
            smaller,
            factor,
        ),
{
    let scale = scale_to(processor.max_pixels as nat, size.0, size.1);
    whole_sides(
        scaled_units(size.0, scale, factor, rounding),
        scaled_units(size.1, scale, factor, rounding),
        factor,
    );
}

/// An image of whole merged patches whose pixels are within bounds keeps its size.
pub proof fn fitting_sizes_stay(processor: QwenVLProcessor, rows: nat, columns: nat)
    requires
        processor.wf(),
        processor.factor() <= u32::MAX,
        rows > 0,
        columns > 0,
        rows * processor.factor() <= u32::MAX,
        columns * processor.factor() <= u32::MAX,
        processor.min_pixels <= (rows * processor.factor()) * (columns * processor.factor())
            <= processor.max_pixels,
    ensures
        processor.resized(rows * processor.factor(), columns * processor.factor()) == Some(
            (rows * processor.factor(), columns * processor.factor()),
        ),
{
    let factor = processor.factor();
    assert(factor > 0) by (nonlinear_arith)
        requires
            factor == processor.patch_size * processor.spatial_merge_size,
            processor.patch_size > 0,
            processor.spatial_merge_size > 0,
    ;
    assert(rows <= rows * factor && columns <= columns * factor) by (nonlinear_arith)
        requires
            factor > 0,
    ;
    integer_quotients_are_exact(rows, factor);
    integer_quotients_are_exact(columns, factor);
}

/// Pixels of an image, row by row, three bytes each. Bytes beyond the last pixel are not part of
/// the image.
#[derive(Debug)]
pub struct RgbPixels {
    pub width: u32,
    pub height: u32,
    pub bytes: Vec<u8>,
}

impl RgbPixels {
    /// Bytes of all pixels.
    pub open spec fn size(&self) -> int {
        3 * (self.width * self.height)
    }

    /// Whether the bytes of a row can be counted and there are bytes for all pixels.
    pub open spec fn wf(&self) -> bool {
        3 * self.width <= usize::MAX && self.bytes@.len() >= self.size()
    }
}

/// Patches of an image: the bytes of merged patches that stand together, patch after patch.
#[derive(Debug)]
pub struct PreparedImage {
    pub patches: Vec<u8>,
    pub grid_thw: (i32, i32, i32),
    pub row_width: usize,
}

/// Why an image cannot be prepared.
#[derive(Debug, Clone, Copy, PartialEq, Eq, Structural)]
pub enum ImageError {
    /// The buffer is too small for the size of the image, or a row is too long to be counted.
    BufferTooSmall,
    /// The image or its resized form is too large.
    TooLarge,
}

/// Calls `image::ImageBuffer::from_raw` for RGB pixels and hands the buffer back with `into_raw`.
/// Claims that the buffer is accepted exactly if the bytes of a row can be counted and it holds
/// three bytes for every pixel, and that it is not changed.
#[verifier::external_body]
fn accept_buffer(width: u32, height: u32, bytes: Vec<u8>) -> (accepted: Option<Vec<u8>>)
    ensures
        match accepted {
            Some(buffer) => {
                &&& 3 * width <= usize::MAX
                &&& bytes@.len() >= 3 * (width * height)
                &&& buffer@ == bytes@
            },
            None => 3 * width > usize::MAX || bytes@.len() < 3 * (width * height),
        },
{
    image::RgbImage::from_raw(width, height, bytes).map(|image| image.into_raw())
}

/// Sides below this one are brought to any length, and sides of any length to them.
pub const SHORT_SIDE: u32 = 0x40_0000;

/// The longest side that is brought to a side which is no longer than this either.
pub const LONGEST_SIDE: u32 = 0x80_0000;

/// Whether single precision tells the pixels of a side apart when it is resampled: the place of a
/// new pixel is then less than one pixel of the coarser side away from a given pixel.
pub open spec fn can_resample(side: nat, new_side: nat) -> bool {
    ||| side < SHORT_SIDE
    ||| new_side < SHORT_SIDE
    ||| side <= LONGEST_SIDE && new_side <= LONGEST_SIDE
}

/// Whether an image of one size is resampled to bring it to another: it has pixels, and the size
/// changes.
pub open spec fn is_resampled(size: (nat, nat), new_size: (nat, nat)) -> bool {
    size.0 > 0 && size.1 > 0 && size != new_size
}

/// Calls `image::imageops::resize` with the Lanczos filter of three lobes on an RGB image. Claims
/// that the result has three bytes for every pixel of the new size, that an image which has that
/// size already is copied, and that an empty image gives zeros. What the filter makes of other
/// images depends on the sine of the machine and is left unsaid. Two long sides are left out,
/// because the filter computes places in single precision: where the last place is off by a whole
/// pixel, the weights there are sines of multiples of pi, and the call panics if they add up to
/// zero. An image that is not resampled has no such bound.
#[verifier::external_body]
fn resize_buffer(
    width: u32,
    height: u32,
    bytes: Vec<u8>,
    new_width: u32,
    new_height: u32,
) -> (resized: Vec<u8>)
    requires
        3 * width <= usize::MAX,
        bytes@.len() >= 3 * (width * height),
        new_width > 0,
        new_height > 0,
        3 * (new_width * new_height) <= isize::MAX,
        is_resampled((height as nat, width as nat), (new_height as nat, new_width as nat)) ==> {
            &&& can_resample(width as nat, new_width as nat)
            &&& can_resample(height as nat, new_height as nat)
            &&& 16 * (width * new_height) <= isize::MAX
        },
    ensures
        resized@.len() == 3 * (new_width * new_height),
        new_width == width && new_height == height ==> resized@ == bytes@.take(
            3 * (width * height),
        ),
        width == 0 || height == 0 ==> forall|i: int|
            0 <= i < resized@.len() ==> #[trigger] resized@[i] == 0,
{
    let source = image::RgbImage::from_raw(width, height, bytes).unwrap();
    let filter = image::imageops::FilterType::Lanczos3;
    image::imageops::resize(&source, new_width, new_height, filter).into_raw()
}

fn resamples(side: u32, new_side: u32) -> (possible: bool)
    ensures
        possible == can_resample(side as nat, new_side as nat),
{
    side < SHORT_SIDE || new_side < SHORT_SIDE || (side <= LONGEST_SIDE && new_side <= LONGEST_SIDE)
}

/// A count below two to the power of thirty-two as a signed integer of that width: large counts
/// wrap around.
pub open spec fn wrapped(count: int) -> int {
    if count <= i32::MAX {
        count
    } else {
        count - 0x1_0000_0000
    }
}

fn wrap(count: u32) -> (value: i32)
    ensures
        value == wrapped(count as int),
{
    if count <= i32::MAX as u32 {
        count as i32
    } else {
        (count as i64 - 0x1_0000_0000) as i32
    }
}

impl QwenVLProcessor {
    /// Merged patches along a side.
    pub open spec fn blocks(&self, length: int) -> int {
        length / self.patch_size as int / self.spatial_merge_size as int
    }

    /// Bytes of all patches of an image of this size.
    pub open spec fn patch_bytes(&self, height: int, width: int) -> int {
        self.blocks(height) * self.blocks(width) * self.spatial_merge_size
            * self.spatial_merge_size * self.temporal_patch_size * 3 * self.patch_size
            * self.patch_size
    }

    /// Where byte `k` of the patches comes from. Merged patches follow each other row by row; inside
    /// one, its patches do; every patch stands once per frame; in a frame, the three colours follow
    /// each other, each row by row.
    pub open spec fn patch_source(&self, width: int, k: int) -> int {
        let patch = self.patch_size as int;
        let merge = self.spatial_merge_size as int;
        let frames = self.temporal_patch_size as int;
        let columns = self.blocks(width);
        let dx = k % patch;
        let line = k / patch;
        let dy = line % patch;
        let plane = line / patch;
        let colour = plane % 3;
        let frame = plane / 3;
        let tile = frame / frames;
        let inner_x = tile % merge;
        let strip = tile / merge;
        let inner_y = strip % merge;
        let block = strip / merge;
        let y = (block / columns * merge + inner_y) * patch + dy;
        let x = (block % columns * merge + inner_x) * patch + dx;
        3 * (y * width + x) + colour
    }

    /// The bytes of all patches.
    pub open spec fn patches_of(&self, bytes: Seq<u8>, height: int, width: int) -> Seq<u8> {
        Seq::new(
            self.patch_bytes(height, width) as nat,
            |k: int| bytes[self.patch_source(width, k)],
        )
    }
}

/// Quotient and remainder of a number below a product.
proof fn split_below(k: int, divisor: int, count: int)
    requires
        divisor > 0,
        0 <= k < count * divisor,
    ensures
        0 <= k % divisor < divisor,
        0 <= k / divisor < count,
{
    assert(count * divisor == divisor * count) by (nonlinear_arith);
    lemma_mod_bound(k, divisor);
    lemma_multiply_divide_lt(k, divisor, count);
    lemma_div_pos_is_pos(k, divisor);
}

/// Whole blocks do not reach beyond a side.
proof fn blocks_fit(length: int, patch: int, merge: int)
    requires
        length >= 0,
        patch > 0,
        merge > 0,
    ensures
        0 <= length / patch / merge,
        (length / patch / merge) * merge * patch <= length,
{
    let patches = length / patch;
    lemma_div_pos_is_pos(length, patch);
    lemma_div_pos_is_pos(patches, merge);
    lemma_fundamental_div_mod(length, patch);
    lemma_mod_bound(length, patch);
    lemma_fundamental_div_mod(patches, merge);
    lemma_mod_bound(patches, merge);
    let blocks = patches / merge;
    assert(blocks * merge <= patches) by (nonlinear_arith)
        requires
            patches == merge * blocks + patches % merge,
            patches % merge >= 0,
    ;
    assert((blocks * merge) * patch <= patches * patch) by (nonlinear_arith)
        requires
            blocks * merge <= patches,
            patch > 0,
    ;
    assert(patches * patch <= length) by (nonlinear_arith)
        requires
            length == patch * patches + length % patch,
            length % patch >= 0,
    ;
}

/// A pixel inside a patch inside a block lies inside the blocks.
proof fn coordinate_fits(block: int, blocks: int, inner: int, merge: int, offset: int, patch: int)
    requires
        0 <= block < blocks,
        0 <= inner < merge,
        0 <= offset < patch,
    ensures
        0 <= (block * merge + inner) * patch + offset < blocks * merge * patch,
        0 <= block * merge,
        0 <= (block * merge + inner) * patch,
        block * merge + inner < blocks * merge * patch,
{
    assert(0 <= block * merge) by (nonlinear_arith)
        requires
            block >= 0,
            merge > 0,
    ;
    assert(block * merge + inner < blocks * merge) by (nonlinear_arith)
        requires
            block + 1 <= blocks,
            inner < merge,
            merge > 0,
    ;
    assert((block * merge + inner) * patch + offset < (blocks * merge) * patch) by (nonlinear_arith)
        requires
            0 <= block * merge + inner,
            block * merge + inner + 1 <= blocks * merge,
            0 <= offset < patch,
    ;
    assert(0 <= (block * merge + inner) * patch) by (nonlinear_arith)
        requires
            0 <= block * merge + inner,
            patch > 0,
    ;
    assert(block * merge + inner <= (block * merge + inner) * patch) by (nonlinear_arith)
        requires
            0 <= block * merge + inner,
            patch > 0,
    ;
}

/// Multiplying by a positive number does not make smaller.
proof fn grows(count: int, factor: int)
    requires
        count >= 0,
        factor >= 1,
    ensures
        0 <= count <= count * factor,
{
    assert(0 <= count <= count * factor) by (nonlinear_arith)
        requires
            count >= 0,
            factor >= 1,
    ;
}

/// A side is not longer than an area that is not empty.
proof fn side_below_area(width: int, height: int)
    ensures
        width > 0 && height > 0 ==> width <= width * height && height <= width * height,
{
    assert(width > 0 && height > 0 ==> width <= width * height && height <= width * height)
        by (nonlinear_arith);
}

impl QwenVLProcessor {
    /// The block of byte `k` and its place in it are inside the blocks of the image.
    proof fn indices_fit(&self, height: int, width: int, k: int)
        requires
            self.wf(),
            height >= 0,
            width >= 0,
            0 <= k < self.patch_bytes(height, width),
        ensures
            ({
                let patch = self.patch_size as int;
                let merge = self.spatial_merge_size as int;
                let columns = self.blocks(width);
                let line = k / patch;
                let plane = line / patch;
                let tile = plane / 3 / self.temporal_patch_size as int;
                let strip = tile / merge;
                let block = strip / merge;
                &&& 0 <= k % patch < patch
                &&& 0 <= line % patch < patch
                &&& 0 <= plane % 3 < 3
                &&& 0 <= tile % merge < merge
                &&& 0 <= strip % merge < merge
                &&& columns > 0
                &&& 0 <= block / columns < self.blocks(height)
                &&& 0 <= block % columns < columns
            }),
    {
        let patch = self.patch_size as int;
        let merge = self.spatial_merge_size as int;
        let frames = self.temporal_patch_size as int;
        let rows = self.blocks(height);
        let columns = self.blocks(width);
        blocks_fit(height, patch, merge);
        blocks_fit(width, patch, merge);
        let c1 = rows * columns;
        let c2 = c1 * merge;
        let c3 = c2 * merge;
        let c4 = c3 * frames;
        let c5 = c4 * 3;
        let c6 = c5 * patch;
        split_below(k, patch, c6);
        let line = k / patch;
        split_below(line, patch, c5);
        let plane = line / patch;
        split_below(plane, 3, c4);
        let frame = plane / 3;
        split_below(frame, frames, c3);
        let tile = frame / frames;
        split_below(tile, merge, c2);
        let strip = tile / merge;
        split_below(strip, merge, c1);
        let block = strip / merge;
        assert(columns > 0) by (nonlinear_arith)
            requires
                0 <= block < rows * columns,
                columns >= 0,
        ;
        split_below(block, columns, rows);
    }

    /// Every byte of the patches comes from a byte of the image.
    pub proof fn patches_come_from_image(&self, height: int, width: int, k: int)
        requires
            self.wf(),
            height >= 0,
            width >= 0,
            0 <= k < self.patch_bytes(height, width),
        ensures
            0 <= self.patch_source(width, k) < 3 * (width * height),
    {
        let patch = self.patch_size as int;
        let merge = self.spatial_merge_size as int;
        let frames = self.temporal_patch_size as int;
        let rows = self.blocks(height);
        let columns = self.blocks(width);
        blocks_fit(height, patch, merge);
        blocks_fit(width, patch, merge);
        self.indices_fit(height, width, k);
        let line = k / patch;
        let tile = line / patch / 3 / frames;
        let strip = tile / merge;
        let block = strip / merge;
        coordinate_fits(block / columns, rows, strip % merge, merge, line % patch, patch);
        coordinate_fits(block % columns, columns, tile % merge, merge, k % patch, patch);
        let y = (block / columns * merge + strip % merge) * patch + line % patch;
        let x = (block % columns * merge + tile % merge) * patch + k % patch;
        assert(0 <= y < height && 0 <= x < width);
        assert(0 <= y * width + x < width * height) by (nonlinear_arith)
            requires
                0 <= y,
                y + 1 <= height,
                0 <= x < width,
        ;
    }

    /// The byte of the image that is byte `k` of the patches.
    fn source_byte(&self, height: usize, width: usize, columns: usize, k: usize) -> (at: usize)
        requires
            self.wf(),
            columns == self.blocks(width as int),
            0 <= k < self.patch_bytes(height as int, width as int),
            3 * (width * height) <= usize::MAX,
        ensures
            at == self.patch_source(width as int, k as int),
            at < 3 * (width * height),
    {
        let patch: usize = self.patch_size;
        let merge: usize = self.spatial_merge_size;
        let frames: usize = self.temporal_patch_size;
        let ghost rows = self.blocks(height as int);
        proof {
            self.patches_come_from_image(height as int, width as int, k as int);
            blocks_fit(height as int, patch as int, merge as int);
            blocks_fit(width as int, patch as int, merge as int);
            self.indices_fit(height as int, width as int, k as int);
        }
        let dx: usize = k % patch;
        let line: usize = k / patch;
        let dy: usize = line % patch;
        let plane: usize = line / patch;
        let colour: usize = plane % 3;
        let frame: usize = plane / 3;
        let tile: usize = frame / frames;
        let inner_x: usize = tile % merge;
        let strip: usize = tile / merge;
        let inner_y: usize = strip % merge;
        let block: usize = strip / merge;
        proof {
            coordinate_fits(
                block as int / columns as int,
                rows,
                inner_y as int,
                merge as int,
                dy as int,
                patch as int,
            );
            coordinate_fits(
                block as int % columns as int,
                columns as int,
                inner_x as int,
                merge as int,
                dx as int,
                patch as int,
            );
            side_below_area(width as int, height as int);
        }
        let y: usize = (block / columns * merge + inner_y) * patch + dy;
        let x: usize = (block % columns * merge + inner_x) * patch + dx;
        assert(0 <= y * width && y * width + x < width * height) by (nonlinear_arith)
            requires
                0 <= y,
                y + 1 <= height,
                0 <= x < width,
        ;
        3 * (y * width + x) + colour
    }

    /// Bytes of all patches of an image.
    fn count_bytes(&self, height: usize, width: usize) -> (count: usize)
        requires
            self.wf(),
            self.patch_bytes(height as int, width as int) <= usize::MAX,
        ensures
            count == self.patch_bytes(height as int, width as int),
    {
        let patch: usize = self.patch_size;
        let merge: usize = self.spatial_merge_size;
        let frames: usize = self.temporal_patch_size;
        let rows: usize = height / patch / merge;
        let columns: usize = width / patch / merge;
        proof {
            blocks_fit(height as int, patch as int, merge as int);
            blocks_fit(width as int, patch as int, merge as int);
            let c1 = rows * columns;
            assert(c1 >= 0) by (nonlinear_arith)
                requires
                    rows >= 0,
                    columns >= 0,
                    c1 == rows * columns,
            ;
            let c2 = c1 * merge;
            grows(c1, merge as int);
            let c3 = c2 * merge;
            grows(c2, merge as int);
            let c4 = c3 * frames;
            grows(c3, frames as int);
            let c5 = c4 * 3;
            let c6 = c5 * patch;
            grows(c5, patch as int);
            grows(c6, patch as int);
        }
        rows * columns * merge * merge * frames * 3 * patch * patch
    }

    /// Brings the bytes of an image into patch order.
    pub fn patchify(&self, image: &RgbPixels) -> (prepared: PreparedImage)
        requires
            self.wf(),
            image.wf(),
            self.patch_bytes(image.height as int, image.width as int) <= usize::MAX,
            3 * (self.patch_size * self.patch_size) <= usize::MAX,
        ensures
            prepared.patches@ == self.patches_of(
                image.bytes@,
                image.height as int,
                image.width as int,
            ),
            prepared.grid_thw.0 == 1,
            prepared.grid_thw.1 == wrapped(image.height as int / self.patch_size as int),
            prepared.grid_thw.2 == wrapped(image.width as int / self.patch_size as int),
            prepared.row_width == 3 * (self.patch_size * self.patch_size),
    {
        let patch: usize = self.patch_size;
        let merge: usize = self.spatial_merge_size;
        let frames: usize = self.temporal_patch_size;
        let height: usize = image.height as usize;
        let width: usize = image.width as usize;
        let columns: usize = width / patch / merge;
        let count: usize = self.count_bytes(height, width);
        let available: usize = image.bytes.len();
        let mut patches: Vec<u8> = Vec::new();
        let mut k: usize = 0;
        while k < count
            invariant
                self.wf(),
                image.wf(),
                available == image.bytes@.len(),
                patch == self.patch_size,
                merge == self.spatial_merge_size,
                frames == self.temporal_patch_size,
                height == image.height,
                width == image.width,
                columns == self.blocks(width as int),
                count == self.patch_bytes(height as int, width as int),
                k <= count,
                patches@.len() == k,
                forall|i: int|
                    0 <= i < k ==> #[trigger] patches@[i] == image.bytes@[self.patch_source(
                        width as int,
                        i,
                    )],
            decreases count - k,
        {
            let at: usize = self.source_byte(height, width, columns, k);
            patches.push(image.bytes[at]);
            k = k + 1;
        }
        assert(patches@ == self.patches_of(image.bytes@, height as int, width as int));
        assert(height as int / patch as int <= height as int && width as int / patch as int
            <= width as int) by (nonlinear_arith)
            requires
                patch > 0,
                height >= 0,
                width >= 0,
        ;
        PreparedImage {
            patches,
            grid_thw: (1, wrap((height / patch) as u32), wrap((width / patch) as u32)),
            row_width: 3 * (patch * patch),
        }
    }
}

impl QwenVLProcessor {
    /// Whether an image of this size can be prepared: it can be brought to the size that is wanted,
    /// and the machine can hold the patches.
    pub open spec fn can_prepare(&self, height: nat, width: nat) -> bool {
        &&& 3 * (self.patch_size * self.patch_size) <= usize::MAX
        &&& match self.resized(height, width) {
            Some((new_height, new_width)) => {
                &&& is_resampled((height, width), (new_height, new_width)) ==> {
                    &&& can_resample(width, new_width)
                    &&& can_resample(height, new_height)
                    &&& 16 * (width * new_height) <= isize::MAX
                }
                &&& 3 * (new_width * new_height) <= isize::MAX
                &&& self.patch_bytes(new_height as int, new_width as int) <= usize::MAX
            },
            None => false,
        }
    }

    /// Whether `prepared` holds the patches of `pixels`, which have this size.
    pub open spec fn prepared_from(
        &self,
        prepared: PreparedImage,
        pixels: Seq<u8>,
        height: int,
        width: int,
    ) -> bool {
        &&& pixels.len() == 3 * (width * height)
        &&& prepared.patches@ == self.patches_of(pixels, height, width)
        &&& prepared.grid_thw.0 == 1
        &&& prepared.grid_thw.1 == wrapped(height / self.patch_size as int)
        &&& prepared.grid_thw.2 == wrapped(width / self.patch_size as int)
        &&& prepared.row_width == 3 * (self.patch_size * self.patch_size)
    }

    /// Whether `prepared` is what becomes of an image: the patches of its resized pixels. An image
    /// that has the wanted size already keeps its pixels, and an empty one becomes black. What
    /// resampling makes of other images is left open.
    pub open spec fn prepares(
        &self,
        prepared: PreparedImage,
        bytes: Seq<u8>,
        height: nat,
        width: nat,
    ) -> bool {
        let size = self.resized(height, width)->0;
        exists|pixels: Seq<u8>|
            {
                &&& #[trigger] self.prepared_from(prepared, pixels, size.0 as int, size.1 as int)
                &&& size == (height, width) ==> pixels == bytes.take((3 * (width * height)) as int)
                &&& height == 0 || width == 0 ==> forall|i: int|
                    0 <= i < pixels.len() ==> #[trigger] pixels[i] == 0
            }
    }

    /// Resizes an image and brings it into patches.
    pub fn prepare_rgb(&self, image: &RgbPixels) -> (prepared: PreparedImage)
        requires
            self.wf(),
            image.wf(),
            self.can_prepare(image.height as nat, image.width as nat),
        ensures
            self.prepares(prepared, image.bytes@, image.height as nat, image.width as nat),
    {
        let (height, width): (u32, u32) = self.smart_resize(image.height, image.width);
        proof {
            self.resized_has_pixels(image.height as nat, image.width as nat);
        }
        let bytes: Vec<u8> = image.bytes.clone();
        assert(bytes@ == image.bytes@);
        let resized: Vec<u8> = resize_buffer(image.width, image.height, bytes, width, height);
        let ghost pixels = resized@;
        let target: RgbPixels = RgbPixels { width, height, bytes: resized };
        assert(3 * width <= 3 * (width * height)) by (nonlinear_arith)
            requires
                width >= 0,
                height > 0,
        ;
        let prepared: PreparedImage = self.patchify(&target);
        assert(self.prepared_from(prepared, pixels, height as int, width as int));
        prepared
    }

    /// A resized image is not empty.
    proof fn resized_has_pixels(&self, height: nat, width: nat)
        requires
            self.wf(),
        ensures
            self.resized(height, width) matches Some(size) ==> size.0 > 0 && size.1 > 0,
    {
        sides_are_whole_patches(*self, height, width);
        if let Some(size) = self.resized(height, width) {
            let factor = self.factor();
            let (rows, columns) = choose|rows: nat, columns: nat|
                rows > 0 && columns > 0 && size == #[trigger] patches_size(rows, columns, factor);
            assert(factor > 0) by (nonlinear_arith)
                requires
                    factor == self.patch_size * self.spatial_merge_size,
                    self.patch_size > 0,
                    self.spatial_merge_size > 0,
            ;
            assert(rows * factor > 0 && columns * factor > 0) by (nonlinear_arith)
                requires
                    rows > 0,
                    columns > 0,
                    factor > 0,
            ;
        }
    }

    /// Whether an image of this size can be prepared.
    fn is_preparable(&self, height: u32, width: u32) -> (preparable: bool)
        requires
            self.wf(),
        ensures
            preparable == self.can_prepare(height as nat, width as nat),
    {
        assert(self.patch_size * self.patch_size <= u128::MAX) by (nonlinear_arith)
            requires
                0 <= self.patch_size <= u64::MAX,
        ;
        let square: u128 = self.patch_size as u128 * self.patch_size as u128;
        if square > usize::MAX as u128 / 3 {
            return false;
        }
        match self.checked_smart_resize(height, width) {
            Some((new_height, new_width)) => {
                assert(0 <= width * new_height <= u32::MAX * u32::MAX && 0 <= new_width
                    * new_height <= u32::MAX * u32::MAX) by (nonlinear_arith)
                    requires
                        0 <= width <= u32::MAX,
                        0 <= new_width <= u32::MAX,
                        0 <= new_height <= u32::MAX,
                ;
                let strip: u128 = 16 * (width as u128 * new_height as u128);
                let area: u128 = 3 * (new_width as u128 * new_height as u128);
                if area > isize::MAX as u128 {
                    return false;
                }
                let resampled: bool = height > 0 && width > 0 && (height != new_height || width
                    != new_width);
                if resampled && !(resamples(width, new_width) && resamples(height, new_height)
                    && strip <= isize::MAX as u128) {
                    return false;
                }
                self.patches_fit(new_height as usize, new_width as usize)
            },
            None => false,
        }
    }

    /// Whether the machine can count the bytes of all patches.
    fn patches_fit(&self, height: usize, width: usize) -> (fit: bool)
        requires
            self.wf(),
        ensures
            fit == (self.patch_bytes(height as int, width as int) <= usize::MAX),
    {
        let patch: usize = self.patch_size;
        let merge: usize = self.spatial_merge_size;
        let frames: usize = self.temporal_patch_size;
        let rows: usize = height / patch / merge;
        let columns: usize = width / patch / merge;
        proof {
            blocks_fit(height as int, patch as int, merge as int);
            blocks_fit(width as int, patch as int, merge as int);
            let c1 = rows * columns;
            assert(c1 >= 0) by (nonlinear_arith)
                requires
                    rows >= 0,
                    columns >= 0,
                    c1 == rows * columns,
            ;
            let c2 = c1 * merge;
            grows(c1, merge as int);
            let c3 = c2 * merge;
            grows(c2, merge as int);
            let c4 = c3 * frames;
            grows(c3, frames as int);
            let c5 = c4 * 3;
            let c6 = c5 * patch;
            grows(c5, patch as int);
            grows(c6, patch as int);
        }
        match checked_product(rows, columns, merge, merge, frames) {
            Some(count) => checked_product(count, 3, patch, patch, 1).is_some(),
            None => false,
        }
    }

    /// Takes decoded pixels, resizes them and brings them into patches.
    pub fn prepare_rgb_bytes(&self, width: u32, height: u32, rgb: Vec<u8>) -> (result: Result<
        PreparedImage,
        ImageError,
    >)
        requires
            self.wf(),
        ensures
            match result {
                Ok(prepared) => {
                    &&& 3 * width <= usize::MAX
                    &&& rgb@.len() >= 3 * (width * height)
                    &&& self.can_prepare(height as nat, width as nat)
                    &&& self.prepares(prepared, rgb@, height as nat, width as nat)
                },
                Err(ImageError::BufferTooSmall) => 3 * width > usize::MAX || rgb@.len() < 3 * (width
                    * height),
                Err(ImageError::TooLarge) => {
                    &&& 3 * width <= usize::MAX
                    &&& rgb@.len() >= 3 * (width * height)
                    &&& !self.can_prepare(height as nat, width as nat)
                },
            },
    {
        let bytes: Vec<u8> = match accept_buffer(width, height, rgb) {
            Some(bytes) => bytes,
            None => {
                return Err(ImageError::BufferTooSmall);
            },
        };
        if !self.is_preparable(height, width) {
            return Err(ImageError::TooLarge);
        }
        Ok(self.prepare_rgb(&RgbPixels { width, height, bytes }))
    }
}

/// A product of five factors, of which all but the first two are positive.
fn checked_product(a: usize, b: usize, c: usize, d: usize, e: usize) -> (result: Option<usize>)
    requires
        c > 0,
        d > 0,
        e > 0,
    ensures
        match result {
            Some(value) => value == a * b * c * d * e,
            None => a * b * c * d * e > usize::MAX,
        },
{
    proof {
        let p = a * b;
        assert(p >= 0) by (nonlinear_arith)
            requires
                p == a * b,
        ;
        grows(p, c as int);
        grows(p * c, d as int);
        grows(p * c * d, e as int);
    }
    match a.checked_mul(b) {
        Some(ab) => match ab.checked_mul(c) {
            Some(abc) => match abc.checked_mul(d) {
                Some(abcd) => abcd.checked_mul(e),
                None => None,
            },
            None => None,
        },
        None => None,
    }
}

/// A byte of a prepared image, by where it stands.
pub struct PatchByte {
    pub block_y: int,
    pub block_x: int,
    pub inner_y: int,
    pub inner_x: int,
    pub frame: int,
    pub colour: int,
    pub dy: int,
    pub dx: int,
}

impl QwenVLProcessor {
    /// Whether a byte lies inside its frame, patch and block, for an image of this width.
    pub open spec fn is_patch_byte(&self, width: int, byte: PatchByte) -> bool {
        &&& 0 <= byte.block_y
        &&& 0 <= byte.block_x < self.blocks(width)
        &&& 0 <= byte.inner_y < self.spatial_merge_size
        &&& 0 <= byte.inner_x < self.spatial_merge_size
        &&& 0 <= byte.frame < self.temporal_patch_size
        &&& 0 <= byte.colour < 3
        &&& 0 <= byte.dy < self.patch_size
        &&& 0 <= byte.dx < self.patch_size
    }

    /// The place of a byte in the patches: blocks row by row, in a block its patches row by row, in
    /// a patch its frames, in a frame its colours, and each colour row by row.
    pub open spec fn patch_index(&self, width: int, byte: PatchByte) -> int {
        let block = byte.block_y * self.blocks(width) + byte.block_x;
        let strip = block * self.spatial_merge_size + byte.inner_y;
        let tile = strip * self.spatial_merge_size + byte.inner_x;
        let frame = tile * self.temporal_patch_size + byte.frame;
        let plane = frame * 3 + byte.colour;
        let line = plane * self.patch_size + byte.dy;
        line * self.patch_size + byte.dx
    }
}

/// The patches of a merged block stand together, and every frame repeats the same pixels.
pub proof fn merged_patches_stand_together(processor: QwenVLProcessor, width: int, byte: PatchByte)
    requires
        processor.wf(),
        width >= 0,
        processor.is_patch_byte(width, byte),
    ensures
        processor.patch_source(width, processor.patch_index(width, byte)) == 3 * (((byte.block_y
            * processor.spatial_merge_size + byte.inner_y) * processor.patch_size + byte.dy) * width
            + ((byte.block_x * processor.spatial_merge_size + byte.inner_x) * processor.patch_size
            + byte.dx)) + byte.colour,
{
    let patch = processor.patch_size as int;
    let merge = processor.spatial_merge_size as int;
    let frames = processor.temporal_patch_size as int;
    let columns = processor.blocks(width);
    let block = byte.block_y * columns + byte.block_x;
    let strip = block * merge + byte.inner_y;
    let tile = strip * merge + byte.inner_x;
    let frame = tile * frames + byte.frame;
    let plane = frame * 3 + byte.colour;
    let line = plane * patch + byte.dy;
    let k = line * patch + byte.dx;
    lemma_fundamental_div_mod_converse(k, patch, line, byte.dx);
    lemma_fundamental_div_mod_converse(line, patch, plane, byte.dy);
    lemma_fundamental_div_mod_converse(plane, 3, frame, byte.colour);
    lemma_fundamental_div_mod_converse(frame, frames, tile, byte.frame);
    lemma_fundamental_div_mod_converse(tile, merge, strip, byte.inner_x);
    lemma_fundamental_div_mod_converse(strip, merge, block, byte.inner_y);
    lemma_fundamental_div_mod_converse(block, columns, byte.block_y, byte.block_x);
}

} // verus!
