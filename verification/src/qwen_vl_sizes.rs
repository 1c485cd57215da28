//! How many pixels resized images have.

use vstd::prelude::*;
use crate::binary64::{
    ceiling_of, converted, floor_of, powers_grow, product, quotient, round_of, saturated, two_to, Binary,
};
use crate::binary64_bounds::{
    ceiling_is_not_smaller, common_factor, conversion_is_near, floor_is_not_larger,
    integers_lie_within_one, is_normal,
    losses_add, losses_multiply, nearly, nearly_is_enough, parts, product_is_near,
    quotient_is_near, rounding_is_within_half_of_scaled, scaled, square_root_is_near,
};
use crate::qwen_vl_processor::{
    at_least_one, given_units, has_pixels, rescaled, scale_to, scaled_units, sides,
    sides_have_pixels, QwenVLProcessor, Rounding,
};

verus! {

/// A scaled side in units, before it is rounded.
spec fn unrounded(length: nat, scale: Binary, factor: nat) -> Binary {
    quotient(product(converted(length), scale), converted(factor))
}

/// How far an exponent is from zero.
spec fn reach(value: Binary) -> int {
    if value.exponent >= 0 {
        value.exponent
    } else {
        -value.exponent
    }
}

/// Numbers of full length stay positive when they are scaled.
proof fn scaled_is_positive(value: Binary, k: int)
    requires
        is_normal(value),
        value.exponent + k >= 0,
    ensures
        scaled(value, k) > 0,
{
    let power = two_to((value.exponent + k) as nat);
    powers_grow(0, (value.exponent + k) as nat);
    assert(value.significand * power > 0) by (nonlinear_arith)
        requires
            value.significand > 0,
            power > 0,
    ;
}

/// Whether two integers are nearly the same.
spec fn alike(x: int, y: int, loss: int) -> bool {
    nearly(x, y, loss) && nearly(y, x, loss)
}

proof fn alike_chain(x: int, y: int, z: int, first: int, second: int)
    requires
        alike(x, y, first),
        alike(y, z, second),
        0 <= first <= parts(),
        0 <= second <= parts(),
        0 <= x,
        0 <= z,
    ensures
        alike(x, z, first + second),
{
    losses_add(x, y, z, first, second);
    losses_add(z, y, x, second, first);
}

proof fn alike_factor(x: int, y: int, factor: int, loss: int)
    requires
        factor > 0,
    ensures
        alike(x * factor, y * factor, loss) == alike(x, y, loss),
{
    common_factor(x, y, factor, loss);
    common_factor(y, x, factor, loss);
}

proof fn alike_product(x: int, y: int, first: int, u: int, v: int, second: int)
    requires
        alike(x, y, first),
        alike(u, v, second),
        0 <= first <= parts(),
        0 <= second <= parts(),
        0 < x,
        0 < y,
        0 < u,
        0 < v,
    ensures
        alike(x * u, y * v, first + second),
{
    losses_multiply(x, y, first, u, v, second);
    losses_multiply(y, x, first, v, u, second);
}

/// Products of positive integers are positive.
proof fn positive(x: int, y: int)
    requires
        x > 0,
        y > 0,
    ensures
        x * y > 0,
{
    assert(x * y > 0) by (nonlinear_arith)
        requires
            x > 0,
            y > 0,
    ;
}

/// A scaled side is nearly the product of the side and the scale.
proof fn unrounded_is_near(length: nat, scale: Binary, factor: nat, k: int)
    requires
        length > 0,
        factor > 0,
        is_normal(scale),
        k >= 10 + reach(scale) + reach(converted(length)) + reach(converted(factor)) + reach(
            product(converted(length), scale),
        ) + reach(unrounded(length, scale, factor)),
    ensures
        alike(scaled(unrounded(length, scale, factor), k) * factor, length * scaled(scale, k), 4),
        scaled(unrounded(length, scale, factor), k) > 0,
{
    let one = two_to(k as nat) as int;
    powers_grow(0, k as nat);
    let given = converted(length);
    let unit = converted(factor);
    let middle = product(given, scale);
    let result = unrounded(length, scale, factor);
    conversion_is_near(length, k);
    conversion_is_near(factor, k);
    product_is_near(given, scale, k);
    quotient_is_near(middle, unit, k);
    let s = scaled(scale, k);
    let g = scaled(given, k);
    let u = scaled(unit, k);
    let m = scaled(middle, k);
    let r = scaled(result, k);
    scaled_is_positive(scale, k);
    scaled_is_positive(given, k);
    scaled_is_positive(unit, k);
    scaled_is_positive(middle, k);
    scaled_is_positive(result, k);
    let l = length as int;
    let f = factor as int;
    // The product.
    positive(m, one);
    positive(l, one);
    positive(l, s);
    positive(l * one, s);
    alike_factor(g, l * one, s, 1);
    alike_chain(m * one, g * s, (l * one) * s, 1, 1);
    assert((l * one) * s == (l * s) * one) by (nonlinear_arith);
    alike_factor(m, l * s, one, 2);
    // The quotient.
    positive(r, f);
    positive(r * f, one);
    positive(f, one);
    alike_factor(f * one, u, r, 1);
    assert((f * one) * r == (r * f) * one && u * r == r * u) by (nonlinear_arith);
    alike_chain((r * f) * one, r * u, m * one, 1, 1);
    alike_factor(r * f, m, one, 2);
    alike_chain(r * f, m, l * s, 2, 2);
}

/// The square of a scale, times the pixels that it is applied to, is nearly the pixels wanted.
proof fn scale_is_near(pixels: nat, height: nat, width: nat, k: int)
    requires
        pixels > 0,
        height * width > 0,
        k >= 100 + reach(converted(pixels)) + reach(converted(height * width)) + reach(
            quotient(converted(pixels), converted(height * width)),
        ) + reach(scale_to(pixels, height, width)),
    ensures
        ({
            let s = scaled(scale_to(pixels, height, width), k);
            let one = two_to(k as nat) as int;
            alike((s * s) * (height * width), (pixels * one) * one, 5)
        }),
        is_normal(scale_to(pixels, height, width)),
        scaled(scale_to(pixels, height, width), k) > 0,
{
    let one = two_to(k as nat) as int;
    powers_grow(0, k as nat);
    let wanted = converted(pixels);
    let present = converted(height * width);
    let ratio = quotient(wanted, present);
    let scale = scale_to(pixels, height, width);
    conversion_is_near(pixels, k);
    conversion_is_near(height * width, k);
    quotient_is_near(wanted, present, k);
    square_root_is_near(ratio, k);
    let w = scaled(wanted, k);
    let p = scaled(present, k);
    let q = scaled(ratio, k);
    let s = scaled(scale, k);
    scaled_is_positive(wanted, k);
    scaled_is_positive(present, k);
    scaled_is_positive(ratio, k);
    scaled_is_positive(scale, k);
    let n = (height * width) as int;
    let m = pixels as int;
    // The ratio.
    positive(n, one);
    positive(m, one);
    positive(q, n);
    positive(q * n, one);
    positive(w, one);
    positive(m * one, one);
    alike_factor(n * one, p, q, 1);
    assert((n * one) * q == (q * n) * one && p * q == q * p) by (nonlinear_arith);
    alike_chain((q * n) * one, q * p, w * one, 1, 1);
    alike_factor(w, m * one, one, 1);
    alike_chain((q * n) * one, w * one, (m * one) * one, 2, 1);
    // The root.
    positive(s, s);
    positive(s * s, n);
    alike_factor(s * s, q * one, n, 2);
    assert((q * one) * n == (q * n) * one) by (nonlinear_arith);
    alike_chain((s * s) * n, (q * n) * one, (m * one) * one, 2, 3);
}

/// Both scaled sides together are nearly the pixels wanted.
proof fn scaled_area_is_near(size: (nat, nat), pixels: nat, factor: nat) -> (k: int)
    requires
        pixels > 0,
        factor > 0,
        size.0 > 0,
        size.1 > 0,
    ensures
        ({
            let scale = scale_to(pixels, size.0, size.1);
            let tall = unrounded(size.0, scale, factor);
            let wide = unrounded(size.1, scale, factor);
            let one = two_to(k as nat) as int;
            &&& k >= 0
            &&& one > 0
            &&& tall.exponent + k >= 0
            &&& wide.exponent + k >= 0
            &&& alike(
                (scaled(tall, k) * factor) * (scaled(wide, k) * factor),
                (pixels * one) * one,
                13,
            )
            &&& alike(scaled(tall, k) * factor, size.0 * scaled(scale, k), 4)
            &&& alike(scaled(wide, k) * factor, size.1 * scaled(scale, k), 4)
            &&& alike(
                (scaled(scale, k) * scaled(scale, k)) * (size.0 * size.1),
                (pixels * one) * one,
                5,
            )
            &&& scaled(scale, k) > 0
            &&& scaled(tall, k) > 0
            &&& scaled(wide, k) > 0
        }),
{
    let scale = scale_to(pixels, size.0, size.1);
    let tall = unrounded(size.0, scale, factor);
    let wide = unrounded(size.1, scale, factor);
    positive(size.0 as int, size.1 as int);
    let k = 100 + reach(converted(pixels)) + reach(converted(size.0 * size.1)) + reach(
        quotient(converted(pixels), converted(size.0 * size.1)),
    ) + reach(scale) + reach(converted(size.0)) + reach(converted(size.1)) + reach(
        converted(factor),
    ) + reach(product(converted(size.0), scale)) + reach(product(converted(size.1), scale)) + reach(
        tall,
    ) + reach(wide);
    let one = two_to(k as nat) as int;
    powers_grow(0, k as nat);
    scale_is_near(pixels, size.0, size.1, k);
    unrounded_is_near(size.0, scale, factor, k);
    unrounded_is_near(size.1, scale, factor, k);
    let s = scaled(scale, k);
    let h = size.0 as int;
    let w = size.1 as int;
    let x = scaled(tall, k) * factor;
    let y = scaled(wide, k) * factor;
    positive(scaled(tall, k), factor as int);
    positive(scaled(wide, k), factor as int);
    positive(h, s);
    positive(w, s);
    positive(x, y);
    alike_product(x, h * s, 4, y, w * s, 4);
    assert((h * s) * (w * s) == (s * s) * (h * w)) by (nonlinear_arith);
    positive(pixels as int, one);
    positive(pixels * one, one);
    alike_chain(x * y, (s * s) * (h * w), (pixels * one) * one, 8, 5);
    k
}

/// A larger integer is nearly as large as well.
proof fn nearly_grows(x: int, larger: int, y: int, smaller: int, loss: int)
    requires
        nearly(x, y, loss),
        x <= larger,
        smaller <= y,
        0 <= loss <= 100,
    ensures
        nearly(larger, smaller, loss),
{
    let p = parts();
    assert(p * larger >= (p - loss) * smaller) by (nonlinear_arith)
        requires
            p * x >= (p - loss) * y,
            x <= larger,
            smaller <= y,
            p > 100,
            loss <= 100,
    ;
}

/// A side of rounded units, scaled, compared with the side before rounding.
proof fn rounded_side(units: nat, factor: nat, one: int, exact: int, up: bool)
    requires
        up ==> units * one >= exact,
        !up ==> units * one <= exact,
    ensures
        up ==> (units * factor) * one >= exact * factor,
        !up ==> (units * factor) * one <= exact * factor,
{
    let a = units * one;
    assert((units * factor) * one == a * factor) by (nonlinear_arith)
        requires
            a == units * one,
    ;
    if up {
        assert(a * factor >= exact * factor) by (nonlinear_arith)
            requires
                a >= exact,
                factor >= 0,
        ;
    } else {
        assert(a * factor <= exact * factor) by (nonlinear_arith)
            requires
                a <= exact,
                factor >= 0,
        ;
    }
}

/// Products keep the order of their factors.
proof fn products_compare(a: int, b: int, c: int, d: int)
    requires
        0 <= a <= b,
        0 <= c <= d,
    ensures
        a * c <= b * d,
{
    assert(a * c <= b * d) by (nonlinear_arith)
        requires
            0 <= a <= b,
            0 <= c <= d,
    ;
}

/// Where the units of one side are cut off at the largest machine integer, and the other side is
/// one pixel long, the image had more pixels to begin with than a machine integer counts.
proof fn one_pixel_side(side: int, other: int, pixels: int, s: int, one: int, exact: int)
    requires
        side > 0,
        other > 0,
        pixels > 0,
        s > 0,
        one > 0,
        exact <= one,
        alike(exact, side * s, 4),
        alike((s * s) * (other * side), (pixels * one) * one, 5),
        0 < exact,
        pixels <= 0x1_0000_0000,
    ensures
        other >= pixels,
{
    positive(side, s);
    nearly_grows(exact, one, side * s, side * s, 4);
    losses_multiply(one, side * s, 4, one, side * s, 4);
    let n = other * side;
    positive(other, side);
    positive(s, s);
    positive(s * s, n);
    positive(one, one);
    positive(side * s, side * s);
    // One square, times the pixels, is nearly the square of the scaled side times them.
    common_factor(one * one, (side * s) * (side * s), n, 8);
    assert(((side * s) * (side * s)) * n == ((s * s) * n) * (side * side)) by (nonlinear_arith);
    positive(side, side);
    common_factor((s * s) * n, (pixels * one) * one, side * side, 5);
    positive(pixels, one);
    positive(pixels * one, one);
    positive((pixels * one) * one, side * side);
    losses_add(
        (one * one) * n,
        ((s * s) * n) * (side * side),
        ((pixels * one) * one) * (side * side),
        8,
        5,
    );
    assert((one * one) * n == n * (one * one)) by (nonlinear_arith);
    assert(((pixels * one) * one) * (side * side) == (pixels * (side * side)) * (one * one))
        by (nonlinear_arith);
    common_factor(n, pixels * (side * side), one * one, 13);
    assert(n == other * side);
    assert(pixels * (side * side) == (pixels * side) * side) by (nonlinear_arith);
    common_factor(other, pixels * side, side, 13);
    assert(pixels <= pixels * side) by (nonlinear_arith)
        requires
            pixels > 0,
            side > 0,
    ;
    nearly_grows(other, other, pixels * side, pixels, 13);
    nearly_is_enough(other, pixels, 13);
}

/// Scaling up to so many pixels reaches them.
proof fn scaling_up_is_enough(size: (nat, nat), pixels: nat, factor: nat)
    requires
        0 < pixels <= 0x1_0000_0000,
        factor > 0,
        has_pixels(size),
    ensures
        rescaled(size, pixels, factor, Rounding::Up) matches Some(result) ==> result.0 * result.1
            >= pixels,
{
    let scale = scale_to(pixels, size.0, size.1);
    let tall = unrounded(size.0, scale, factor);
    let wide = unrounded(size.1, scale, factor);
    let k = scaled_area_is_near(size, pixels, factor);
    let one = two_to(k as nat) as int;
    ceiling_is_not_smaller(tall, k);
    ceiling_is_not_smaller(wide, k);
    let rows = at_least_one(saturated(ceiling_of(tall)));
    let columns = at_least_one(saturated(ceiling_of(wide)));
    if let Some(result) = rescaled(size, pixels, factor, Rounding::Up) {
        assert(result == (rows * factor, columns * factor));
        let s = scaled(scale, k);
        let x = scaled(tall, k) * factor;
        let y = scaled(wide, k) * factor;
        positive(scaled(tall, k), factor as int);
        positive(scaled(wide, k), factor as int);
        positive(rows as int, factor as int);
        positive(columns as int, factor as int);
        if ceiling_of(tall) <= u32::MAX && ceiling_of(wide) <= u32::MAX {
            at_least_one_is_larger(ceiling_of(tall), one);
            at_least_one_is_larger(ceiling_of(wide), one);
            rounded_side(rows, factor, one, scaled(tall, k), true);
            rounded_side(columns, factor, one, scaled(wide, k), true);
            let a = (rows * factor) as int;
            let b = (columns * factor) as int;
            products_compare(x, a * one, y, b * one);
            assert((a * one) * (b * one) == (a * b) * (one * one)) by (nonlinear_arith);
            assert((pixels * one) * one == pixels * (one * one)) by (nonlinear_arith);
            nearly_grows(
                x * y,
                (a * b) * (one * one),
                pixels * (one * one),
                pixels * (one * one),
                13,
            );
            positive(one, one);
            common_factor(a * b, pixels as int, one * one, 13);
            nearly_is_enough(a * b, pixels as int, 13);
        } else {
            // A side that is cut off has units of one pixel.
            assert(factor == 1) by (nonlinear_arith)
                requires
                    factor > 0,
                    rows * factor <= u32::MAX,
                    columns * factor <= u32::MAX,
                    rows == u32::MAX || columns == u32::MAX,
            ;
            assert(size.0 * size.1 == size.1 * size.0) by (nonlinear_arith);
            assert(scaled(tall, k) * factor == scaled(tall, k)) by (nonlinear_arith)
                requires
                    factor == 1,
            ;
            assert(scaled(wide, k) * factor == scaled(wide, k)) by (nonlinear_arith)
                requires
                    factor == 1,
            ;
            assert(rows * factor == rows && columns * factor == columns) by (nonlinear_arith)
                requires
                    factor == 1,
            ;
            if ceiling_of(tall) > u32::MAX {
                if columns == 1 {
                    assert(scaled(wide, k) <= one) by {
                        assert(ceiling_of(wide) * one <= one) by (nonlinear_arith)
                            requires
                                ceiling_of(wide) <= 1,
                                one > 0,
                        ;
                    }
                    one_pixel_side(
                        size.1 as int,
                        size.0 as int,
                        pixels as int,
                        s,
                        one,
                        scaled(wide, k),
                    );
                    assert(rows * columns == rows) by (nonlinear_arith)
                        requires
                            columns == 1,
                    ;
                } else {
                    assert(rows * columns >= 2 * u32::MAX) by (nonlinear_arith)
                        requires
                            rows == u32::MAX,
                            columns >= 2,
                    ;
                }
            } else {
                if rows == 1 {
                    assert(scaled(tall, k) <= one) by {
                        assert(ceiling_of(tall) * one <= one) by (nonlinear_arith)
                            requires
                                ceiling_of(tall) <= 1,
                                one > 0,
                        ;
                    }
                    one_pixel_side(
                        size.0 as int,
                        size.1 as int,
                        pixels as int,
                        s,
                        one,
                        scaled(tall, k),
                    );
                    assert(rows * columns == columns) by (nonlinear_arith)
                        requires
                            rows == 1,
                    ;
                } else {
                    assert(rows * columns >= 2 * u32::MAX) by (nonlinear_arith)
                        requires
                            columns == u32::MAX,
                            rows >= 2,
                    ;
                }
            }
        }
    }
}

proof fn at_least_one_is_larger(units: nat, one: int)
    requires
        one > 0,
    ensures
        at_least_one(units) * one >= units * one,
{
    assert(at_least_one(units) * one >= units * one) by (nonlinear_arith)
        requires
            at_least_one(units) >= units,
            one > 0,
    ;
}

/// Scaling down to so many pixels does not exceed them, unless a side is a single unit.
proof fn scaling_down_is_enough(size: (nat, nat), pixels: nat, factor: nat)
    requires
        0 < pixels <= 0x1_0000_0000,
        factor > 0,
        has_pixels(size),
    ensures
        rescaled(size, pixels, factor, Rounding::Down) matches Some(result) ==> result.0 > factor
            && result.1 > factor ==> result.0 * result.1 <= pixels,
{
    let scale = scale_to(pixels, size.0, size.1);
    let tall = unrounded(size.0, scale, factor);
    let wide = unrounded(size.1, scale, factor);
    let k = scaled_area_is_near(size, pixels, factor);
    let one = two_to(k as nat) as int;
    floor_is_not_larger(tall, k);
    floor_is_not_larger(wide, k);
    let rows = at_least_one(saturated(floor_of(tall)));
    let columns = at_least_one(saturated(floor_of(wide)));
    if let Some(result) = rescaled(size, pixels, factor, Rounding::Down) {
        assert(result == (rows * factor, columns * factor));
        if result.0 > factor && result.1 > factor {
            assert(rows > 1 && columns > 1) by (nonlinear_arith)
                requires
                    rows * factor > factor,
                    columns * factor > factor,
            ;
            assert(rows * one <= floor_of(tall) * one) by (nonlinear_arith)
                requires
                    rows <= floor_of(tall),
                    one > 0,
            ;
            assert(columns * one <= floor_of(wide) * one) by (nonlinear_arith)
                requires
                    columns <= floor_of(wide),
                    one > 0,
            ;
            rounded_side(rows, factor, one, scaled(tall, k), false);
            rounded_side(columns, factor, one, scaled(wide, k), false);
            let x = scaled(tall, k) * factor;
            let y = scaled(wide, k) * factor;
            let a = (rows * factor) as int;
            let b = (columns * factor) as int;
            positive(a, one);
            positive(b, one);
            products_compare(a * one, x, b * one, y);
            assert((a * one) * (b * one) == (a * b) * (one * one)) by (nonlinear_arith);
            assert((pixels * one) * one == pixels * (one * one)) by (nonlinear_arith);
            nearly_grows(
                pixels * (one * one),
                pixels * (one * one),
                x * y,
                (a * b) * (one * one),
                13,
            );
            positive(one, one);
            common_factor(pixels as int, a * b, one * one, 13);
            if a * b > pixels {
                nearly_grows(pixels as int, pixels as int, a * b, pixels as int + 1, 13);
                nearly_is_enough(pixels as int, pixels as int + 1, 13);
            }
        }
    }
}

/// A resized image has at least as many pixels as are asked for, up to counts of thirty-two bits.
pub proof fn sizes_reach_least_pixels(processor: QwenVLProcessor, height: nat, width: nat)
    requires
        processor.wf(),
        processor.min_pixels <= 0x1_0000_0000,
    ensures
        processor.resized(height, width) matches Some(size) ==> size.0 * size.1
            >= processor.min_pixels,
{
    let factor = processor.factor();
    if let Some(size) = processor.resized(height, width) {
        let first = sides(given_units(height, factor), given_units(width, factor), factor)->0;
        let second = processor.shrunk(first, factor, Rounding::Nearest)->0;
        let third = processor.shrunk(second, factor, Rounding::Down)->0;
        shrunk_sizes_have_pixels(processor, height, width);
        scaling_up_is_enough(third, processor.min_pixels as nat, factor);
    }
}

/// A resized image has no more pixels than are allowed, up to counts of thirty-two bits, unless one
/// of its sides is a single merged patch or more pixels are asked for than such a patch has.
pub proof fn sizes_keep_to_most_pixels(processor: QwenVLProcessor, height: nat, width: nat)
    requires
        processor.wf(),
        processor.max_pixels <= 0x1_0000_0000,
        processor.min_pixels <= processor.factor() * processor.factor(),
    ensures
        processor.resized(height, width) matches Some(size) ==> size.0 > processor.factor()
            && size.1 > processor.factor() ==> size.0 * size.1 <= processor.max_pixels,
{
    let factor = processor.factor();
    if let Some(size) = processor.resized(height, width) {
        let first = sides(given_units(height, factor), given_units(width, factor), factor)->0;
        let second = processor.shrunk(first, factor, Rounding::Nearest)->0;
        let third = processor.shrunk(second, factor, Rounding::Down)->0;
        shrunk_sizes_have_pixels(processor, height, width);
        products_compare(factor as int, third.0 as int, factor as int, third.1 as int);
        scaling_down_is_enough(second, processor.max_pixels as nat, factor);
    }
}

/// Sizes on the way to the final one have pixels, and sides of at least one merged patch.
proof fn shrunk_sizes_have_pixels(processor: QwenVLProcessor, height: nat, width: nat)
    requires
        processor.wf(),
        processor.resized(height, width) is Some,
    ensures
        ({
            let factor = processor.factor();
            let first = sides(
                given_units(height, factor),
                given_units(width, factor),
                factor,
            )->0;
            let second = processor.shrunk(first, factor, Rounding::Nearest)->0;
            let third = processor.shrunk(second, factor, Rounding::Down)->0;
            &&& factor > 0
            &&& has_pixels(second)
            &&& has_pixels(third)
            &&& factor <= third.0
            &&& factor <= third.1
        }),
{
    let factor = processor.factor();
    positive(processor.patch_size as int, processor.spatial_merge_size as int);
    let first = sides(given_units(height, factor), given_units(width, factor), factor)->0;
    let second = processor.shrunk(first, factor, Rounding::Nearest)->0;
    sides_are_long(given_units(height, factor), given_units(width, factor), factor);
    let near = scale_to(processor.max_pixels as nat, first.0, first.1);
    sides_are_long(
        scaled_units(first.0, near, factor, Rounding::Nearest),
        scaled_units(first.1, near, factor, Rounding::Nearest),
        factor,
    );
    let down = scale_to(processor.max_pixels as nat, second.0, second.1);
    sides_are_long(
        scaled_units(second.0, down, factor, Rounding::Down),
        scaled_units(second.1, down, factor, Rounding::Down),
        factor,
    );
}

proof fn sides_are_long(height_units: nat, width_units: nat, factor: nat)
    requires
        factor > 0,
    ensures
        sides(height_units, width_units, factor) matches Some(size) ==> has_pixels(size) && factor
            <= size.0 && factor <= size.1,
{
    sides_have_pixels(height_units, width_units, factor);
    let h = at_least_one(height_units);
    let w = at_least_one(width_units);
    assert(factor <= h * factor && factor <= w * factor) by (nonlinear_arith)
        requires
            h > 0,
            w > 0,
    ;
}

/// A given side has as many units as come nearest to it: whole units are off by at most half a unit.
pub proof fn units_are_nearest(given: nat, factor: nat)
    requires
        0 < given <= u32::MAX,
        0 < factor <= u32::MAX,
    ensures
        -factor <= 2 * (given_units(given, factor) * factor - given) <= factor,
{
    let top = converted(given);
    let bottom = converted(factor);
    let value = quotient(top, bottom);
    let k = 10 + reach(top) + reach(bottom) + reach(value);
    let one = two_to(k as nat) as int;
    powers_grow(0, k as nat);
    conversion_is_near(given, k);
    conversion_is_near(factor, k);
    quotient_is_near(top, bottom, k);
    rounding_is_within_half_of_scaled(value, k);
    let g = given as int;
    let f = factor as int;
    let t = scaled(top, k);
    let b = scaled(bottom, k);
    let v = scaled(value, k);
    scaled_is_positive(top, k);
    scaled_is_positive(bottom, k);
    scaled_is_positive(value, k);
    positive(f, one);
    positive(g, one);
    positive(v, f);
    positive(v * f, one);
    positive(t, one);
    positive(g * one, one);
    alike_factor(f * one, b, v, 1);
    assert((f * one) * v == (v * f) * one && b * v == v * b) by (nonlinear_arith);
    alike_chain((v * f) * one, v * b, t * one, 1, 1);
    alike_factor(t, g * one, one, 1);
    alike_chain((v * f) * one, t * one, (g * one) * one, 2, 1);
    alike_factor(v * f, g * one, one, 3);
    let p = parts();
    let r = round_of(value) as int;
    let x = v * f;
    let y = g * one;
    // Both sides of the quotient, in parts.
    assert(p * (y - x) <= 3 * y) by (nonlinear_arith)
        requires
            p * x >= (p - 3) * y,
    ;
    assert(p * (x - y) <= 4 * y) by (nonlinear_arith)
        requires
            p * y >= (p - 3) * x,
            p == 0x20_0000_0000_0000,
            y > 0,
    ;
    // The rounded units, times the factor.
    assert(-(f * one) <= 2 * ((r * f) * one - x) <= f * one) by (nonlinear_arith)
        requires
            -one <= 2 * (r * one - v) <= one,
            x == v * f,
            f > 0,
    ;
    let d = r * f - g;
    assert((r * f) * one - y == d * one) by (nonlinear_arith)
        requires
            d == r * f - g,
            y == g * one,
    ;
    assert(p * (2 * (d * one)) <= p * (f * one) + 8 * y && p * (2 * (d * one)) >= -(p * (f * one))
        - 8 * y) by (nonlinear_arith)
        requires
            -(f * one) <= 2 * ((r * f) * one - x) <= f * one,
            (r * f) * one - y == d * one,
            p * (y - x) <= 3 * y,
            p * (x - y) <= 4 * y,
            y > 0,
            p > 0,
    ;
    assert(8 * g < p);
    assert(-f <= 2 * d <= f) by {
        assert((p * (2 * d)) * one == p * (2 * (d * one))) by (nonlinear_arith);
        assert((p * f) * one == p * (f * one)) by (nonlinear_arith);
        assert((p * f + 8 * g) * one == (p * f) * one + 8 * y) by (nonlinear_arith)
            requires
                y == g * one,
        ;
        assert(p * (2 * d) <= p * f + 8 * g && p * (2 * d) >= -(p * f) - 8 * g) by (nonlinear_arith)
            requires
                (p * (2 * d)) * one <= (p * f + 8 * g) * one,
                (p * (2 * d)) * one >= -((p * f + 8 * g) * one),
                one > 0,
        ;
        if 2 * d > f {
            assert(p * (2 * d) >= p * (f + 1)) by (nonlinear_arith)
                requires
                    2 * d >= f + 1,
                    p > 0,
            ;
            assert(p * (f + 1) == p * f + p) by (nonlinear_arith);
        }
        if 2 * d < -f {
            assert(p * (2 * d) <= p * (-f - 1)) by (nonlinear_arith)
                requires
                    2 * d <= -f - 1,
                    p > 0,
            ;
            assert(p * (-f - 1) == -(p * f) - p) by (nonlinear_arith);
        }
    }
    // The units do not exceed the side, so that nothing is cut off.
    assert(r <= g) by (nonlinear_arith)
        requires
            2 * (r * f - g) <= f,
            f >= 1,
            g >= 1,
            r >= 0,
    ;
}

/// An image whose nearest whole size has an allowed number of pixels is brought to that size: both
/// sides are moved by at most half a merged patch, or are a single one.
pub proof fn allowed_sizes_are_the_nearest(
    processor: QwenVLProcessor,
    height: nat,
    width: nat,
    size: (nat, nat),
)
    requires
        processor.wf(),
        0 < height <= u32::MAX,
        0 < width <= u32::MAX,
        processor.factor() <= u32::MAX,
        sides(
            given_units(height, processor.factor()),
            given_units(width, processor.factor()),
            processor.factor(),
        ) == Some(size),
        processor.min_pixels <= size.0 * size.1 <= processor.max_pixels,
    ensures
        processor.resized(height, width) == Some(size),
        size.0 == processor.factor() || -processor.factor() <= 2 * (size.0 - height)
            <= processor.factor(),
        size.1 == processor.factor() || -processor.factor() <= 2 * (size.1 - width)
            <= processor.factor(),
{
    let factor = processor.factor();
    positive(processor.patch_size as int, processor.spatial_merge_size as int);
    units_are_nearest(height, factor);
    units_are_nearest(width, factor);
    assert(1 * factor == factor) by (nonlinear_arith);
}

/// Whether a side is what a length becomes when an image of `present` pixels is scaled to `pixels`:
/// the scaled length, whose square is that of the length times the ratio of the pixels, lies between
/// the side less `below` halves and the side plus `above` halves, up to thirteen parts in two to the
/// power of fifty-three. A side of a single unit may be longer, and the longest side may be cut off.
pub open spec fn comes_near(
    side: nat,
    length: nat,
    pixels: nat,
    present: nat,
    factor: nat,
    below: int,
    above: int,
) -> bool {
    let wanted = (2 * length) * (2 * length) * pixels;
    let least = (2 * side - below) * (2 * side - below) * present;
    let most = (2 * side + above) * (2 * side + above) * present;
    side < u32::MAX ==> {
        &&& side == factor || 0x20_0000_0000_0000 * wanted >= (0x20_0000_0000_0000 - 13) * least
        &&& 0x20_0000_0000_0000 * most >= (0x20_0000_0000_0000 - 13) * wanted
    }
}

/// Halves that a side may be short of the scaled length under a rounding, and beyond it.
spec fn slack(factor: nat, rounding: Rounding) -> (int, int) {
    match rounding {
        Rounding::Nearest => (factor as int, factor as int),
        Rounding::Down => (0, 2 * (factor as int)),
        Rounding::Up => (2 * (factor as int), 0),
    }
}

/// The square of a scaled length, times the pixels that there are.
proof fn squares_are_near(x: int, length: int, s: int, present: int, pixels: int, one: int)
    requires
        x > 0,
        length > 0,
        s > 0,
        present > 0,
        pixels > 0,
        one > 0,
        alike(x, length * s, 4),
        alike((s * s) * present, (pixels * one) * one, 5),
    ensures
        alike((x * x) * present, ((length * length) * pixels) * (one * one), 13),
{
    positive(length, s);
    positive(x, x);
    positive(s, s);
    positive(length, length);
    positive(length * s, length * s);
    alike_product(x, length * s, 4, x, length * s, 4);
    alike_factor(x * x, (length * s) * (length * s), present, 8);
    let ll = length * length;
    let ss = s * s;
    assert((length * s) * (length * s) == ll * ss) by (nonlinear_arith)
        requires
            ll == length * length,
            ss == s * s,
    ;
    assert((ll * ss) * present == (ss * present) * ll) by (nonlinear_arith);
    alike_factor(ss * present, (pixels * one) * one, ll, 5);
    assert(((pixels * one) * one) * ll == (ll * pixels) * (one * one)) by (nonlinear_arith);
    positive(x * x, present);
    positive(ll, pixels);
    positive(one, one);
    positive(ll * pixels, one * one);
    alike_chain(
        (x * x) * present,
        (ss * present) * ll,
        (ll * pixels) * (one * one),
        8,
        5,
    );
}

/// Bounds on a scaled length are bounds on its square.
proof fn bounds_are_squared(
    x: int,
    low: int,
    high: int,
    length: int,
    present: int,
    pixels: int,
    one: int,
    bounded: bool,
)
    requires
        one > 0,
        present > 0,
        x > 0,
        pixels > 0,
        length > 0,
        bounded ==> 0 <= low && low * one <= 2 * x,
        0 <= high && 2 * x <= high * one,
        alike((x * x) * present, ((length * length) * pixels) * (one * one), 13),
    ensures
        bounded ==> nearly((2 * length) * (2 * length) * pixels, low * low * present, 13),
        nearly(high * high * present, (2 * length) * (2 * length) * pixels, 13),
{
    let square = one * one;
    positive(one, one);
    let y = (x * x) * present;
    let z = (length * length) * pixels;
    let wanted = (2 * length) * (2 * length) * pixels;
    assert(wanted == 4 * z) by (nonlinear_arith)
        requires
            wanted == (2 * length) * (2 * length) * pixels,
            z == (length * length) * pixels,
    ;
    alike_factor(y, z * square, 4, 13);
    assert((z * square) * 4 == wanted * square) by (nonlinear_arith)
        requires
            wanted == 4 * z,
    ;
    let xx = (2 * x) * (2 * x);
    assert(y * 4 == xx * present) by (nonlinear_arith)
        requires
            y == (x * x) * present,
            xx == (2 * x) * (2 * x),
    ;
    if bounded {
        let l = low * one;
        positive_or_zero(low, one);
        products_compare(l, 2 * x, l, 2 * x);
        assert((l * l) * present <= xx * present) by (nonlinear_arith)
            requires
                l * l <= xx,
                present > 0,
        ;
        assert((l * l) * present == (low * low * present) * square) by (nonlinear_arith)
            requires
                l == low * one,
                square == one * one,
        ;
        nearly_grows(wanted * square, wanted * square, xx * present, (l * l) * present, 13);
        common_factor(wanted, low * low * present, square, 13);
    }
    let h = high * one;
    positive_or_zero(high, one);
    products_compare(2 * x, h, 2 * x, h);
    assert((h * h) * present >= xx * present) by (nonlinear_arith)
        requires
            h * h >= xx,
            present > 0,
    ;
    assert((h * h) * present == (high * high * present) * square) by (nonlinear_arith)
        requires
            h == high * one,
            square == one * one,
    ;
    nearly_grows(xx * present, (h * h) * present, wanted * square, wanted * square, 13);
    common_factor(high * high * present, wanted, square, 13);
}

proof fn positive_or_zero(x: int, y: int)
    requires
        x >= 0,
        y > 0,
    ensures
        x * y >= 0,
{
    assert(x * y >= 0) by (nonlinear_arith)
        requires
            x >= 0,
            y > 0,
    ;
}

/// Scaled sides round as they are asked to.
proof fn scaled_side_comes_near(
    first: bool,
    size: (nat, nat),
    pixels: nat,
    factor: nat,
    rounding: Rounding,
)
    requires
        pixels > 0,
        factor > 0,
        has_pixels(size),
    ensures
        ({
            let length = if first {
                size.0
            } else {
                size.1
            };
            let units = scaled_units(
                length,
                scale_to(pixels, size.0, size.1),
                factor,
                rounding,
            );
            comes_near(
                at_least_one(units) * factor,
                length,
                pixels,
                size.0 * size.1,
                factor,
                slack(factor, rounding).0,
                slack(factor, rounding).1,
            )
        }),
{
    let length = if first {
        size.0
    } else {
        size.1
    };
    let scale = scale_to(pixels, size.0, size.1);
    let value = unrounded(length, scale, factor);
    let units = scaled_units(length, scale, factor, rounding);
    let side = at_least_one(units) * factor;
    let k = scaled_area_is_near(size, pixels, factor);
    let one = two_to(k as nat) as int;
    let v = scaled(value, k);
    let f = factor as int;
    let x = v * f;
    let s = scaled(scale, k);
    let n = (size.0 * size.1) as int;
    positive(v, f);
    squares_are_near(x, length as int, s, n, pixels as int, one);
    floor_is_not_larger(value, k);
    ceiling_is_not_smaller(value, k);
    integers_lie_within_one(value, k);
    rounding_is_within_half_of_scaled(value, k);
    let whole = match rounding {
        Rounding::Nearest => round_of(value),
        Rounding::Down => floor_of(value),
        Rounding::Up => ceiling_of(value),
    } as int;
    let (below, above) = slack(factor, rounding);
    if side < u32::MAX {
        assert(units < u32::MAX) by (nonlinear_arith)
            requires
                at_least_one(units) * factor < u32::MAX,
                at_least_one(units) >= units,
                factor >= 1,
        ;
        assert(units == whole);
        let twice = 2 * whole * f;
        // What rounding leaves, times the factor.
        let (down, up): (int, int) = match rounding {
            Rounding::Nearest => (1, 1),
            Rounding::Down => (0, 2),
            Rounding::Up => (2, 0),
        };
        assert((2 * whole - down) * one <= 2 * v <= (2 * whole + up) * one) by {
            assert((2 * whole - down) * one == 2 * (whole * one) - down * one) by (nonlinear_arith);
            assert((2 * whole + up) * one == 2 * (whole * one) + up * one) by (nonlinear_arith);
            assert((whole + 1) * one == whole * one + one) by (nonlinear_arith);
            assert((whole - 1) * one == whole * one - one) by (nonlinear_arith);
        }
        assert(((2 * whole - down) * f) * one <= 2 * x <= ((2 * whole + up) * f) * one)
            by (nonlinear_arith)
            requires
                (2 * whole - down) * one <= 2 * v <= (2 * whole + up) * one,
                x == v * f,
                f > 0,
        ;
        assert(below == down * f && above == up * f) by (nonlinear_arith)
            requires
                (below, above) == slack(factor, rounding),
                f == factor,
                rounding == Rounding::Nearest ==> (down, up) == (1int, 1int) && below == f && above
                    == f,
                rounding == Rounding::Down ==> (down, up) == (0int, 2int) && below == 0 && above == 2
                    * f,
                rounding == Rounding::Up ==> (down, up) == (2int, 0int) && below == 2 * f && above
                    == 0,
                rounding == Rounding::Nearest || rounding == Rounding::Down || rounding
                    == Rounding::Up,
        ;
        let low = (2 * whole - down) * f;
        let high = (2 * whole + up) * f;
        assert(low == 2 * (whole * f) - below && high == 2 * (whole * f) + above)
            by (nonlinear_arith)
            requires
                low == (2 * whole - down) * f,
                high == (2 * whole + up) * f,
                below == down * f,
                above == up * f,
        ;
        assert(high >= 0) by (nonlinear_arith)
            requires
                high == (2 * whole + up) * f,
                whole >= 0,
                up >= 0,
                f > 0,
        ;
        if whole >= 1 {
            assert(low >= 0) by (nonlinear_arith)
                requires
                    low == (2 * whole - down) * f,
                    whole >= 1,
                    down <= 2,
                    f > 0,
            ;
        }
        bounds_are_squared(
            x,
            low,
            high,
            length as int,
            n,
            pixels as int,
            one,
            whole >= 1,
        );
        if whole == 0 {
            assert(1 * factor == factor) by (nonlinear_arith);
            assert(side == factor);
            let longer = 2 * f + above;
            assert(0 <= high <= longer);
            products_compare(high, longer, high, longer);
            assert(high * high * n <= longer * longer * n) by (nonlinear_arith)
                requires
                    high * high <= longer * longer,
                    n > 0,
            ;
            let wanted = (2 * length) * (2 * length) * pixels;
            nearly_grows(high * high * n, longer * longer * n, wanted as int, wanted as int, 13);
        }
    }
}

/// How an image gets its size. Both sides go to the nearest number of units. Too many pixels are
/// scaled down, each side to the nearest number of units; if there are still too many, once more, each
/// side down to whole units. Too few pixels are scaled up, each side up to whole units.
pub proof fn sizes_are_scaled_step_by_step(processor: QwenVLProcessor, height: nat, width: nat)
    requires
        processor.wf(),
        processor.resized(height, width) is Some,
    ensures
        exists|first: (nat, nat), second: (nat, nat), third: (nat, nat)|
            #[trigger] sized_through(processor, height, width, first, second, third),
{
    let factor = processor.factor();
    let most = processor.max_pixels as nat;
    let least = processor.min_pixels as nat;
    let first = sides(given_units(height, factor), given_units(width, factor), factor)->0;
    let second = processor.shrunk(first, factor, Rounding::Nearest)->0;
    let third = processor.shrunk(second, factor, Rounding::Down)->0;
    shrunk_sizes_have_pixels(processor, height, width);
    sides_have_pixels(given_units(height, factor), given_units(width, factor), factor);
    scaled_side_comes_near(true, first, most, factor, Rounding::Nearest);
    scaled_side_comes_near(false, first, most, factor, Rounding::Nearest);
    scaled_side_comes_near(true, second, most, factor, Rounding::Down);
    scaled_side_comes_near(false, second, most, factor, Rounding::Down);
    scaled_side_comes_near(true, third, least, factor, Rounding::Up);
    scaled_side_comes_near(false, third, least, factor, Rounding::Up);
    assert(sized_through(processor, height, width, first, second, third));
}

/// Whether an image of this size is brought to its final size through these.
pub open spec fn sized_through(
    processor: QwenVLProcessor,
    height: nat,
    width: nat,
    first: (nat, nat),
    second: (nat, nat),
    third: (nat, nat),
) -> bool {
    let factor = processor.factor();
    let most = processor.max_pixels as nat;
    let least = processor.min_pixels as nat;
    let last = processor.resized(height, width)->0;
    let unit = factor as int;
    &&& first.0 == at_least_one(given_units(height, factor)) * factor
    &&& first.1 == at_least_one(given_units(width, factor)) * factor
    &&& if first.0 * first.1 <= most {
        second == first
    } else {
        &&& comes_near(second.0, first.0, most, first.0 * first.1, factor, unit, unit)
        &&& comes_near(second.1, first.1, most, first.0 * first.1, factor, unit, unit)
    }
    &&& if second.0 * second.1 <= most {
        third == second
    } else {
        &&& comes_near(third.0, second.0, most, second.0 * second.1, factor, 0, 2 * unit)
        &&& comes_near(third.1, second.1, most, second.0 * second.1, factor, 0, 2 * unit)
    }
    &&& if third.0 * third.1 >= least {
        last == third
    } else {
        &&& comes_near(last.0, third.0, least, third.0 * third.1, factor, 2 * unit, 0)
        &&& comes_near(last.1, third.1, least, third.0 * third.1, factor, 2 * unit, 0)
    }
}

} // verus!
