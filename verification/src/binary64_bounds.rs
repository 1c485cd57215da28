//! How far arithmetic in double precision is off: every operation by at most one part in two to
//! the power of fifty-three.

use vstd::arithmetic::div_mod::{lemma_fundamental_div_mod, lemma_mod_bound};
use vstd::prelude::*;
use crate::binary64::{
    carried, ceiling_of, converted, floor_of, integer_root, is_integer_root, nearest, nearest_above,
    nearest_below, nearest_integer, nearest_root, powers_add, powers_grow, product, quotient,
    round_of, rounding_is_within_half, square_root, two_to, Binary,
};

verus! {

/// Parts that relative errors are counted in.
pub open spec fn parts() -> int {
    0x20_0000_0000_0000
}

/// Whether `x` is not smaller than `y` by more than `loss` parts.
pub open spec fn nearly(x: int, y: int, loss: int) -> bool {
    parts() * x >= (parts() - loss) * y
}

/// A number times two to the power of `scale`, which must make an integer of it.
pub open spec fn scaled(value: Binary, scale: int) -> int {
    (value.significand * two_to((value.exponent + scale) as nat)) as int
}

/// Whether the significand has its full length.
pub open spec fn is_normal(value: Binary) -> bool {
    0x10_0000_0000_0000 <= value.significand < 0x20_0000_0000_0000
}

/// Shows that `x` is nearly `y` from a bound on the difference.
proof fn small_differences_are_near(x: int, y: int, loss: int)
    requires
        0x20_0000_0000_0000 * (y - x) <= loss * y,
    ensures
        nearly(x, y, loss),
{
    let p = parts();
    assert(p * x >= (p - loss) * y) by (nonlinear_arith)
        requires
            p * (y - x) <= loss * y,
    ;
}

/// Losses of a chain add up.
pub proof fn losses_add(x: int, y: int, z: int, first: int, second: int)
    requires
        nearly(x, y, first),
        nearly(y, z, second),
        0 <= first <= parts(),
        0 <= second <= parts(),
        0 <= z,
    ensures
        nearly(x, z, first + second),
{
    let p = parts();
    assert(p * x >= (p - first - second) * z) by (nonlinear_arith)
        requires
            p * x >= (p - first) * y,
            p * y >= (p - second) * z,
            p > 0,
            0 <= first <= p,
            0 <= second <= p,
            0 <= z,
    {
        assert(p * (p * x) >= p * ((p - first) * y)) by (nonlinear_arith)
            requires
                p * x >= (p - first) * y,
                p > 0,
        ;
        assert(p * ((p - first) * y) == (p - first) * (p * y)) by (nonlinear_arith);
        assert((p - first) * (p * y) >= (p - first) * ((p - second) * z)) by (nonlinear_arith)
            requires
                p * y >= (p - second) * z,
                first <= p,
        ;
        assert((p - first) * ((p - second) * z) == p * ((p - first - second) * z) + first * second
            * z) by (nonlinear_arith);
        assert(first * second * z >= 0) by (nonlinear_arith)
            requires
                first >= 0,
                second >= 0,
                z >= 0,
        ;
        assert(p * (p * x) >= p * ((p - first - second) * z));
        assert(p * x >= (p - first - second) * z) by (nonlinear_arith)
            requires
                p * (p * x) >= p * ((p - first - second) * z),
                p > 0,
        ;
    }
}

/// A common factor does not matter.
pub proof fn common_factor(x: int, y: int, factor: int, loss: int)
    requires
        factor > 0,
    ensures
        nearly(x * factor, y * factor, loss) == nearly(x, y, loss),
{
    let p = parts();
    assert(p * (x * factor) == (p * x) * factor) by (nonlinear_arith);
    assert((p - loss) * (y * factor) == ((p - loss) * y) * factor) by (nonlinear_arith);
    assert((p * x) * factor >= ((p - loss) * y) * factor <==> p * x >= (p - loss) * y)
        by (nonlinear_arith)
        requires
            factor > 0,
    ;
}

/// Losses of a product add up.
pub proof fn losses_multiply(x: int, y: int, first: int, u: int, v: int, second: int)
    requires
        nearly(x, y, first),
        nearly(u, v, second),
        0 <= first <= parts(),
        0 <= second <= parts(),
        0 <= y,
        0 < u,
        0 <= v,
    ensures
        nearly(x * u, y * v, first + second),
{
    common_factor(x, y, u, first);
    if y > 0 {
        common_factor(u, v, y, second);
        assert(u * y == y * u && v * y == y * v) by (nonlinear_arith);
        assert(y * v >= 0) by (nonlinear_arith)
            requires
                y >= 0,
                v >= 0,
        ;
        losses_add(x * u, y * u, y * v, first, second);
    } else {
        assert(y * v == 0 && y * u == 0) by (nonlinear_arith)
            requires
                y == 0,
        ;
    }
}

/// An integer that is nearly as large as a small one is at least as large.
pub proof fn nearly_is_enough(x: int, y: int, loss: int)
    requires
        nearly(x, y, loss),
        0 <= loss <= 100,
        0 <= y <= 0x1_0000_0001,
    ensures
        x >= y,
{
    if x < y {
        assert(parts() * x <= parts() * (y - 1)) by (nonlinear_arith)
            requires
                x <= y - 1,
                parts() > 0,
        ;
        assert(loss * y <= 100 * y) by (nonlinear_arith)
            requires
                loss <= 100,
                y >= 0,
        ;
        assert((parts() - loss) * y == parts() * y - loss * y) by (nonlinear_arith);
        assert(parts() * (y - 1) == parts() * y - parts()) by (nonlinear_arith);
    }
}

/// Raising the scale multiplies by a power of two.
pub proof fn scales_add(value: Binary, scale: int, more: nat)
    requires
        value.exponent + scale >= 0,
    ensures
        scaled(value, scale + more) == scaled(value, scale) * two_to(more),
{
    let low = (value.exponent + scale) as nat;
    powers_add(low, more);
    assert(value.significand * (two_to(low) * two_to(more)) == (value.significand * two_to(low))
        * two_to(more)) by (nonlinear_arith);
}

/// A rounded quotient whose integer part is long is off by at most one part.
proof fn rounding_is_near(a: nat, b: nat)
    requires
        b > 0,
        b * 0x10_0000_0000_0000 <= a,
    ensures
        nearly((nearest_integer(a, b) * b) as int, a as int, 1),
        nearly(a as int, (nearest_integer(a, b) * b) as int, 1),
{
    rounding_is_within_half(a, b);
    let x = (nearest_integer(a, b) * b) as int;
    small_differences_are_near(x, a as int, 1);
    small_differences_are_near(a as int, x, 1);
}

/// A carried significand stands for the same number.
proof fn carrying_keeps_value(significand: nat, exponent: int, scale: int)
    requires
        0x10_0000_0000_0000 <= significand <= 0x20_0000_0000_0000,
        exponent + scale >= 0,
    ensures
        scaled(carried(significand, exponent), scale) == significand * two_to(
            (exponent + scale) as nat,
        ),
        is_normal(carried(significand, exponent)),
        exponent <= carried(significand, exponent).exponent <= exponent + 1,
{
    let low = (exponent + scale) as nat;
    assert(two_to(low + 1) == 2 * two_to(low));
    assert(0x10_0000_0000_0000 * (2 * two_to(low)) == 0x20_0000_0000_0000 * two_to(low));
}

/// Whether `result` is nearly `a / b` times two to the power of `exponent`, from both sides.
spec fn is_near(result: Binary, a: nat, b: nat, exponent: int, scale: int) -> bool {
    &&& nearly(scaled(result, scale) * b, (a * two_to((exponent + scale) as nat)) as int, 1)
    &&& nearly((a * two_to((exponent + scale) as nat)) as int, scaled(result, scale) * b, 1)
}

proof fn settled_is_near(a: nat, b: nat, exponent: int, scale: int)
    requires
        b > 0,
        b * 0x10_0000_0000_0000 <= a < b * 0x20_0000_0000_0000,
        exponent + scale >= 0,
    ensures
        is_near(carried(nearest_integer(a, b), exponent), a, b, exponent, scale),
        is_normal(carried(nearest_integer(a, b), exponent)),
{
    let rounded = nearest_integer(a, b);
    let power = two_to((exponent + scale) as nat);
    rounding_is_near(a, b);
    rounding_is_within_half(a, b);
    assert(0x10_0000_0000_0000 <= rounded <= 0x20_0000_0000_0000) by (nonlinear_arith)
        requires
            b > 0,
            b * 0x10_0000_0000_0000 <= a < b * 0x20_0000_0000_0000,
            -b <= 2 * (rounded * b - a) <= b,
    ;
    carrying_keeps_value(rounded, exponent, scale);
    powers_grow(0, (exponent + scale) as nat);
    common_factor((rounded * b) as int, a as int, power as int, 1);
    common_factor(a as int, (rounded * b) as int, power as int, 1);
    assert((rounded * power) * b == (rounded * b) * power) by (nonlinear_arith);
}

proof fn nearest_above_is_near(a: nat, b: nat, exponent: int, scale: int)
    requires
        b > 0,
        b * 0x10_0000_0000_0000 <= a,
        exponent + scale >= 0,
    ensures
        is_near(nearest_above(a, b, exponent), a, b, exponent, scale),
        is_normal(nearest_above(a, b, exponent)),
    decreases a - b,
{
    if a >= b * 0x20_0000_0000_0000 {
        nearest_above_is_near(a, 2 * b, exponent + 1, scale);
        let result = nearest_above(a, b, exponent);
        let low = (exponent + scale) as nat;
        assert(two_to(low + 1) == 2 * two_to(low));
        let x = scaled(result, scale) * b;
        let y = (a * two_to(low)) as int;
        assert(scaled(result, scale) * (2 * b) == x * 2) by (nonlinear_arith)
            requires
                x == scaled(result, scale) * b,
        ;
        assert(a * (2 * two_to(low)) == y * 2) by (nonlinear_arith)
            requires
                y == a * two_to(low),
        ;
        common_factor(x, y, 2, 1);
        common_factor(y, x, 2, 1);
    } else {
        settled_is_near(a, b, exponent, scale);
    }
}

proof fn nearest_below_is_near(a: nat, b: nat, exponent: int, scale: int)
    requires
        a > 0,
        b > 0,
        a < b * 0x20_0000_0000_0000,
        nearest_below(a, b, exponent).exponent + scale >= 1,
    ensures
        exponent + scale >= 0,
        is_near(nearest_below(a, b, exponent), a, b, exponent, scale),
        is_normal(nearest_below(a, b, exponent)),
    decreases b * 0x20_0000_0000_0000 - a,
{
    let result = nearest_below(a, b, exponent);
    if a < b * 0x10_0000_0000_0000 {
        nearest_below_is_near(2 * a, b, exponent - 1, scale);
        let low = (exponent - 1 + scale) as nat;
        assert(two_to(low + 1) == 2 * two_to(low));
        assert((2 * a) * two_to(low) == a * (2 * two_to(low))) by (nonlinear_arith);
    } else {
        assert(carried(nearest_integer(a, b), exponent).exponent <= exponent + 1);
        settled_is_near(a, b, exponent, scale);
    }
}

/// The number nearest to a quotient is off by at most one part.
pub proof fn nearest_is_near(a: nat, b: nat, exponent: int, scale: int)
    requires
        a > 0,
        b > 0,
        exponent + scale >= 0,
        nearest(a, b, exponent).exponent + scale >= 1,
    ensures
        nearly(
            scaled(nearest(a, b, exponent), scale) * b,
            (a * two_to((exponent + scale) as nat)) as int,
            1,
        ),
        nearly(
            (a * two_to((exponent + scale) as nat)) as int,
            scaled(nearest(a, b, exponent), scale) * b,
            1,
        ),
        is_normal(nearest(a, b, exponent)),
{
    if a >= b * 0x20_0000_0000_0000 {
        nearest_above_is_near(a, b, exponent, scale);
    } else {
        nearest_below_is_near(a, b, exponent, scale);
    }
}

/// A converted integer is off by at most one part.
pub proof fn conversion_is_near(n: nat, scale: int)
    requires
        n > 0,
        scale >= 0,
        converted(n).exponent + scale >= 1,
    ensures
        nearly(scaled(converted(n), scale), (n * two_to(scale as nat)) as int, 1),
        nearly((n * two_to(scale as nat)) as int, scaled(converted(n), scale), 1),
        is_normal(converted(n)),
{
    nearest_is_near(n, 1, 0, scale);
    assert(scaled(converted(n), scale) * 1 == scaled(converted(n), scale));
}

/// A quotient is off by at most one part.
pub proof fn quotient_is_near(left: Binary, right: Binary, scale: int)
    requires
        left.significand > 0,
        right.significand > 0,
        right.exponent + scale >= 0,
        left.exponent + scale >= 0,
        left.exponent - right.exponent + scale >= 0,
        quotient(left, right).exponent + scale >= 1,
        scale >= 0,
    ensures
        nearly(
            scaled(quotient(left, right), scale) * scaled(right, scale),
            scaled(left, scale) * two_to(scale as nat),
            1,
        ),
        nearly(
            scaled(left, scale) * two_to(scale as nat),
            scaled(quotient(left, right), scale) * scaled(right, scale),
            1,
        ),
        is_normal(quotient(left, right)),
{
    let result = scaled(quotient(left, right), scale);
    let low = (left.exponent - right.exponent + scale) as nat;
    let high = (right.exponent + scale) as nat;
    nearest_is_near(
        left.significand,
        right.significand,
        left.exponent - right.exponent,
        scale,
    );
    powers_grow(0, high);
    powers_add(low, high);
    let x = result * right.significand;
    let y = (left.significand * two_to(low)) as int;
    common_factor(x, y, two_to(high) as int, 1);
    common_factor(y, x, two_to(high) as int, 1);
    assert(x * two_to(high) == result * (right.significand * two_to(high))) by (nonlinear_arith)
        requires
            x == result * right.significand,
    ;
    assert(y * two_to(high) == left.significand * (two_to(low) * two_to(high)))
        by (nonlinear_arith)
        requires
            y == left.significand * two_to(low),
    ;
    assert(low + high == left.exponent + (scale + scale));
    scales_add(left, scale, scale as nat);
}

/// A product is off by at most one part.
pub proof fn product_is_near(left: Binary, right: Binary, scale: int)
    requires
        left.significand > 0,
        right.significand > 0,
        left.exponent + scale >= 0,
        right.exponent + scale >= 0,
        product(left, right).exponent + scale >= 1,
        scale >= 0,
    ensures
        nearly(
            scaled(product(left, right), scale) * two_to(scale as nat),
            scaled(left, scale) * scaled(right, scale),
            1,
        ),
        nearly(
            scaled(left, scale) * scaled(right, scale),
            scaled(product(left, right), scale) * two_to(scale as nat),
            1,
        ),
        is_normal(product(left, right)),
{
    let result = product(left, right);
    let l = (left.exponent + scale) as nat;
    let r = (right.exponent + scale) as nat;
    assert(left.significand * right.significand > 0) by (nonlinear_arith)
        requires
            left.significand > 0,
            right.significand > 0,
    ;
    nearest_is_near(
        left.significand * right.significand,
        1,
        left.exponent + right.exponent,
        scale + scale,
    );
    powers_add(l, r);
    assert(l + r == left.exponent + right.exponent + (scale + scale));
    assert((left.significand * right.significand) * (two_to(l) * two_to(r)) == (left.significand
        * two_to(l)) * (right.significand * two_to(r))) by (nonlinear_arith);
    scales_add(result, scale, scale as nat);
}

/// Every number has an integer root.
proof fn root_exists(n: nat) -> (root: nat)
    ensures
        is_integer_root(n, root),
    decreases n,
{
    if n == 0 {
        assert(0nat * 0nat == 0 && (0nat + 1) * (0nat + 1) == 1) by (nonlinear_arith);
        0
    } else {
        let below = root_exists((n - 1) as nat);
        let next = below + 1;
        if next * next <= n {
            assert((next + 1) * (next + 1) == next * next + 2 * next + 1) by (nonlinear_arith);
            next
        } else {
            below
        }
    }
}

/// The square of the nearest root of a long number is off by at most two parts.
proof fn root_is_near(n: nat)
    requires
        0x10_0000_0000_0000 * 0x10_0000_0000_0000 <= n < 0x20_0000_0000_0000
            * 0x20_0000_0000_0000,
    ensures
        nearly((nearest_root(n) * nearest_root(n)) as int, n as int, 2),
        nearly(n as int, (nearest_root(n) * nearest_root(n)) as int, 2),
        0x10_0000_0000_0000 <= nearest_root(n) <= 0x20_0000_0000_0000,
{
    let root = integer_root(n);
    assert(is_integer_root(n, root)) by {
        let found = root_exists(n);
    }
    let rounded = nearest_root(n);
    assert(root >= 0x10_0000_0000_0000) by (nonlinear_arith)
        requires
            n < (root + 1) * (root + 1),
            0x10_0000_0000_0000 * 0x10_0000_0000_0000 <= n,
    ;
    assert(root < 0x20_0000_0000_0000) by (nonlinear_arith)
        requires
            root * root <= n,
            n < 0x20_0000_0000_0000 * 0x20_0000_0000_0000,
    ;
    assert((root + 1) * (root + 1) == root * root + 2 * root + 1) by (nonlinear_arith);
    let square = rounded * rounded;
    assert(n - root <= square <= n + root);
    assert(0x10_0000_0000_0000 * root <= root * root) by (nonlinear_arith)
        requires
            root >= 0x10_0000_0000_0000,
    ;
    assert(0x20_0000_0000_0000 * root <= 2 * n);
    small_differences_are_near(square as int, n as int, 2);
    small_differences_are_near(n as int, square as int, 2);
}

proof fn power_fifty_two()
    ensures
        two_to(52) == 0x10_0000_0000_0000,
        two_to(53) == 0x20_0000_0000_0000,
{
    assert(two_to(26) == 0x400_0000) by {
        reveal_with_fuel(two_to, 27);
    }
    powers_add(26, 26);
    assert(two_to(53) == 2 * two_to(52));
}

/// The number whose integer root is taken, and its root's exponent.
spec fn radicand(value: Binary) -> nat {
    if value.exponent % 2 == 0 {
        value.significand * 0x10_0000_0000_0000
    } else {
        2 * value.significand * 0x10_0000_0000_0000
    }
}

proof fn radicand_scales(value: Binary, scale: int)
    requires
        value.exponent + scale >= 0,
        value.exponent / 2 - 26 + scale >= 0,
        scale >= 0,
    ensures
        ({
            let power = two_to((value.exponent / 2 - 26 + scale) as nat);
            scaled(value, scale) * two_to(scale as nat) == radicand(value) * (power * power)
        }),
{
    let low = (value.exponent / 2 - 26 + scale) as nat;
    let square = two_to(low) * two_to(low);
    let s = value.significand;
    powers_add(low, low);
    scales_add(value, scale, scale as nat);
    power_fifty_two();
    if value.exponent % 2 == 0 {
        powers_add(52, low + low);
        assert(value.exponent + scale + scale == 52 + (low + low));
        assert(s * (0x10_0000_0000_0000 * square) == (s * 0x10_0000_0000_0000) * square)
            by (nonlinear_arith);
    } else {
        powers_add(53, low + low);
        assert(value.exponent + scale + scale == 53 + (low + low));
        assert(s * (0x20_0000_0000_0000 * square) == (2 * s * 0x10_0000_0000_0000) * square)
            by (nonlinear_arith);
    }
}

/// The square of a square root is off by at most two parts.
pub proof fn square_root_is_near(value: Binary, scale: int)
    requires
        is_normal(value),
        value.exponent + scale >= 0,
        value.exponent / 2 - 26 + scale >= 0,
        scale >= 0,
    ensures
        nearly(
            scaled(square_root(value), scale) * scaled(square_root(value), scale),
            scaled(value, scale) * two_to(scale as nat),
            2,
        ),
        nearly(
            scaled(value, scale) * two_to(scale as nat),
            scaled(square_root(value), scale) * scaled(square_root(value), scale),
            2,
        ),
        is_normal(square_root(value)),
{
    let half = value.exponent / 2 - 26;
    let n = radicand(value);
    root_is_near(n);
    let rounded = nearest_root(n);
    carrying_keeps_value(rounded, half, scale);
    let power = two_to((half + scale) as nat);
    powers_grow(0, (half + scale) as nat);
    let square = (power * power) as int;
    assert(square > 0) by (nonlinear_arith)
        requires
            power > 0,
            square == power * power,
    ;
    common_factor((rounded * rounded) as int, n as int, square, 2);
    common_factor(n as int, (rounded * rounded) as int, square, 2);
    assert((rounded * power) * (rounded * power) == (rounded * rounded) * square)
        by (nonlinear_arith)
        requires
            square == power * power,
    ;
    radicand_scales(value, scale);
}

/// Rounding up does not make a number smaller.
pub proof fn ceiling_is_not_smaller(value: Binary, scale: int)
    requires
        value.exponent + scale >= 0,
        scale >= 0,
    ensures
        ceiling_of(value) * two_to(scale as nat) >= scaled(value, scale),
{
    integer_part_scales(value, scale);
}

/// Rounding down does not make a number larger.
pub proof fn floor_is_not_larger(value: Binary, scale: int)
    requires
        value.exponent + scale >= 0,
        scale >= 0,
    ensures
        floor_of(value) * two_to(scale as nat) <= scaled(value, scale),
{
    integer_part_scales(value, scale);
}

proof fn integer_part_scales(value: Binary, scale: int)
    requires
        value.exponent + scale >= 0,
        scale >= 0,
    ensures
        floor_of(value) * two_to(scale as nat) <= scaled(value, scale) <= ceiling_of(value)
            * two_to(scale as nat),
{
    let low = (value.exponent + scale) as nat;
    let significand = value.significand as int;
    if value.exponent >= 0 {
        powers_add(value.exponent as nat, scale as nat);
        assert(significand * (two_to(value.exponent as nat) * two_to(scale as nat)) == (significand
            * two_to(value.exponent as nat)) * two_to(scale as nat)) by (nonlinear_arith);
    } else {
        let shift = (-value.exponent) as nat;
        let unit = two_to(shift) as int;
        powers_grow(0, shift);
        powers_grow(0, low);
        powers_add(shift, low);
        lemma_fundamental_div_mod(significand, unit);
        lemma_mod_bound(significand, unit);
        let floor = floor_of(value) as int;
        let ceiling = ceiling_of(value) as int;
        assert(floor * unit <= significand <= ceiling * unit) by (nonlinear_arith)
            requires
                significand == unit * floor + significand % unit,
                0 <= significand % unit < unit,
                ceiling == floor + 1 || (ceiling == floor && significand % unit == 0),
        ;
        assert((floor * unit) * two_to(low) <= significand * two_to(low) <= (ceiling * unit)
            * two_to(low)) by (nonlinear_arith)
            requires
                floor * unit <= significand <= ceiling * unit,
                two_to(low) > 0,
        ;
        assert((floor * unit) * two_to(low) == floor * (unit * two_to(low))) by (nonlinear_arith);
        assert((ceiling * unit) * two_to(low) == ceiling * (unit * two_to(low)))
            by (nonlinear_arith);
    }
}

/// Rounding to an integer is off by at most one half.
pub proof fn rounding_is_within_half_of_scaled(value: Binary, scale: int)
    requires
        value.exponent + scale >= 0,
        scale >= 0,
    ensures
        -two_to(scale as nat) <= 2 * (round_of(value) * two_to(scale as nat) - scaled(value, scale))
            <= two_to(scale as nat),
{
    let low = (value.exponent + scale) as nat;
    let significand = value.significand as int;
    powers_grow(0, scale as nat);
    if value.exponent >= 0 {
        powers_add(value.exponent as nat, scale as nat);
        assert(significand * (two_to(value.exponent as nat) * two_to(scale as nat)) == (significand
            * two_to(value.exponent as nat)) * two_to(scale as nat)) by (nonlinear_arith);
    } else {
        let shift = (-value.exponent) as nat;
        let unit = two_to(shift) as int;
        powers_grow(0, shift);
        powers_grow(0, low);
        powers_add(shift, low);
        lemma_fundamental_div_mod(significand, unit);
        lemma_mod_bound(significand, unit);
        let rounded = round_of(value) as int;
        let floor = floor_of(value) as int;
        let left = significand % unit;
        assert(-unit <= 2 * (rounded * unit - significand) <= unit) by (nonlinear_arith)
            requires
                significand == unit * floor + left,
                0 <= left < unit,
                (rounded == floor && 2 * left < unit) || (rounded == floor + 1 && 2 * left >= unit),
        ;
        let power = two_to(low) as int;
        assert(-(unit * power) <= 2 * ((rounded * unit) * power - significand * power) <= unit
            * power) by (nonlinear_arith)
            requires
                -unit <= 2 * (rounded * unit - significand) <= unit,
                power > 0,
        ;
        assert((rounded * unit) * power == rounded * (unit * power)) by (nonlinear_arith);
    }
}

/// Integers next to a number lie within one of it.
pub proof fn integers_lie_within_one(value: Binary, scale: int)
    requires
        value.exponent + scale >= 0,
        scale >= 0,
    ensures
        scaled(value, scale) <= (floor_of(value) + 1) * two_to(scale as nat),
        (ceiling_of(value) - 1) * two_to(scale as nat) <= scaled(value, scale),
{
    let low = (value.exponent + scale) as nat;
    let significand = value.significand as int;
    let one = two_to(scale as nat) as int;
    powers_grow(0, scale as nat);
    integer_part_scales(value, scale);
    assert((floor_of(value) + 1) * one == floor_of(value) * one + one) by (nonlinear_arith);
    assert((ceiling_of(value) - 1) * one == ceiling_of(value) * one - one) by (nonlinear_arith);
    if value.exponent >= 0 {
        powers_add(value.exponent as nat, scale as nat);
        assert(significand * (two_to(value.exponent as nat) * two_to(scale as nat)) == (significand
            * two_to(value.exponent as nat)) * two_to(scale as nat)) by (nonlinear_arith);
    } else {
        let shift = (-value.exponent) as nat;
        let unit = two_to(shift) as int;
        let power = two_to(low) as int;
        powers_grow(0, shift);
        powers_grow(0, low);
        powers_add(shift, low);
        lemma_fundamental_div_mod(significand, unit);
        lemma_mod_bound(significand, unit);
        let floor = floor_of(value) as int;
        assert(floor * unit <= significand <= (floor + 1) * unit) by (nonlinear_arith)
            requires
                significand == unit * floor + significand % unit,
                0 <= significand % unit < unit,
        ;
        assert((floor * unit) * power <= significand * power <= ((floor + 1) * unit) * power)
            by (nonlinear_arith)
            requires
                floor * unit <= significand <= (floor + 1) * unit,
                power > 0,
        ;
        assert(((floor + 1) * unit) * power == (floor + 1) * (unit * power)) by (nonlinear_arith);
        assert((floor * unit) * power == floor * (unit * power)) by (nonlinear_arith);
        if ceiling_of(value) == floor {
            assert((floor - 1) * one <= floor * one) by (nonlinear_arith)
                requires
                    one > 0,
            ;
        }
    }
}

} // verus!
