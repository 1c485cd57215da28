//! Arithmetic on positive numbers in double precision, done with integers.
//!
//! A number is a significand of fifty-three bits times a power of two. Every operation gives the
//! number nearest to the exact result, and of two equally near ones that with an even significand.
//! Exponents stay far from the ends of the range of the format, so that nothing overflows and
//! nothing is subnormal.

use vstd::prelude::*;

verus! {

/// The least significand.
pub const LEAST: u64 = 0x10_0000_0000_0000;

/// The first number above all significands.
pub const BEYOND: u64 = 0x20_0000_0000_0000;

/// A positive number: `significand` times two to the power of `exponent`.
#[derive(Debug, Clone, Copy, PartialEq, Eq, Structural)]
pub struct Double {
    pub significand: u64,
    pub exponent: i32,
}

/// A positive number, as integers.
pub struct Binary {
    pub significand: nat,
    pub exponent: int,
}

impl View for Double {
    type V = Binary;

    open spec fn view(&self) -> Binary {
        Binary { significand: self.significand as nat, exponent: self.exponent as int }
    }
}

impl Double {
    /// Whether the significand has its full length and the exponent is at most `range` in size.
    pub open spec fn within(&self, range: int) -> bool {
        &&& LEAST <= self.significand < BEYOND
        &&& -range <= self.exponent <= range
    }
}

/// Two to the power of `n`.
pub open spec fn two_to(n: nat) -> nat
    decreases n,
{
    if n == 0 {
        1
    } else {
        2 * two_to((n - 1) as nat)
    }
}

/// The integer nearest to `a / b`, an even one where two are equally near.
pub open spec fn nearest_integer(a: nat, b: nat) -> nat {
    let left = a % b;
    let floor = a / b;
    if 2 * left > b || (2 * left == b && floor % 2 == 1) {
        floor + 1
    } else {
        floor
    }
}

/// A number whose significand may have been rounded up out of its range.
pub open spec fn carried(significand: nat, exponent: int) -> Binary {
    if significand == BEYOND {
        Binary { significand: LEAST as nat, exponent: exponent + 1 }
    } else {
        Binary { significand, exponent }
    }
}

/// The number nearest to `a / b` times two to the power of `exponent`, where `a / b` is not less
/// than the significands.
pub open spec fn nearest_above(a: nat, b: nat, exponent: int) -> Binary
    decreases a - b,
{
    if b > 0 && a >= b * 0x20_0000_0000_0000 {
        nearest_above(a, 2 * b, exponent + 1)
    } else {
        carried(nearest_integer(a, b), exponent)
    }
}

/// The number nearest to `a / b` times two to the power of `exponent`, where `a / b` is not larger
/// than the significands.
pub open spec fn nearest_below(a: nat, b: nat, exponent: int) -> Binary
    decreases b * 0x20_0000_0000_0000 - a,
{
    if 0 < a < b * 0x10_0000_0000_0000 {
        nearest_below(2 * a, b, exponent - 1)
    } else {
        carried(nearest_integer(a, b), exponent)
    }
}

/// The number nearest to `a / b` times two to the power of `exponent`.
pub open spec fn nearest(a: nat, b: nat, exponent: int) -> Binary {
    if a >= b * 0x20_0000_0000_0000 {
        nearest_above(a, b, exponent)
    } else {
        nearest_below(a, b, exponent)
    }
}

/// The number nearest to an integer.
pub open spec fn converted(n: nat) -> Binary {
    nearest(n, 1, 0)
}

/// The number nearest to a quotient.
pub open spec fn quotient(left: Binary, right: Binary) -> Binary {
    nearest(left.significand, right.significand, left.exponent - right.exponent)
}

/// The number nearest to a product.
pub open spec fn product(left: Binary, right: Binary) -> Binary {
    nearest(left.significand * right.significand, 1, left.exponent + right.exponent)
}

/// Whether `root` is the integer part of the square root of `n`.
pub open spec fn is_integer_root(n: nat, root: nat) -> bool {
    root * root <= n < (root + 1) * (root + 1)
}

/// The integer part of the square root.
pub open spec fn integer_root(n: nat) -> nat {
    choose|root: nat| is_integer_root(n, root)
}

/// The integer nearest to the square root. Two are never equally near.
pub open spec fn nearest_root(n: nat) -> nat {
    let root = integer_root(n);
    if n > root * root + root {
        root + 1
    } else {
        root
    }
}

/// The number nearest to a square root. The significand is brought to an even exponent and to
/// twice its length first.
pub open spec fn square_root(value: Binary) -> Binary {
    if value.exponent % 2 == 0 {
        carried(nearest_root(value.significand * 0x10_0000_0000_0000), value.exponent / 2 - 26)
    } else {
        carried(
            nearest_root(2 * value.significand * 0x10_0000_0000_0000),
            value.exponent / 2 - 26,
        )
    }
}

/// The integer part of a number.
pub open spec fn floor_of(value: Binary) -> nat {
    if value.exponent >= 0 {
        value.significand * two_to(value.exponent as nat)
    } else {
        value.significand / two_to((-value.exponent) as nat)
    }
}

/// The least integer that is not smaller.
pub open spec fn ceiling_of(value: Binary) -> nat {
    if value.exponent >= 0 || value.significand % two_to((-value.exponent) as nat) == 0 {
        floor_of(value)
    } else {
        floor_of(value) + 1
    }
}

/// The nearest integer, the larger one where two are equally near.
pub open spec fn round_of(value: Binary) -> nat {
    if value.exponent >= 0 || 2 * (value.significand % two_to((-value.exponent) as nat)) < two_to(
        (-value.exponent) as nat,
    ) {
        floor_of(value)
    } else {
        floor_of(value) + 1
    }
}

/// An integer, or the largest of the machine type.
pub open spec fn saturated(n: nat) -> nat {
    if n <= u32::MAX {
        n
    } else {
        u32::MAX as nat
    }
}

/// Powers of two grow.
pub proof fn powers_grow(small: nat, large: nat)
    requires
        small <= large,
    ensures
        0 < two_to(small) <= two_to(large),
    decreases large,
{
    if small < large {
        powers_grow(small, (large - 1) as nat);
    } else if small > 0 {
        powers_grow((small - 1) as nat, (small - 1) as nat);
    }
}

/// Powers of two multiply by adding exponents.
pub proof fn powers_add(a: nat, b: nat)
    ensures
        two_to(a + b) == two_to(a) * two_to(b),
    decreases a,
{
    if a == 0 {
        assert(two_to(0) == 1);
        assert(1 * two_to(b) == two_to(b));
    } else {
        powers_add((a - 1) as nat, b);
        assert(two_to(a + b) == 2 * two_to((a - 1 + b) as nat));
        assert(2 * (two_to((a - 1) as nat) * two_to(b)) == (2 * two_to((a - 1) as nat)) * two_to(
            b,
        )) by (nonlinear_arith);
    }
}

proof fn power_sixty_four()
    ensures
        two_to(64) == 0x1_0000_0000_0000_0000,
{
    assert(two_to(16) == 0x1_0000) by {
        reveal_with_fuel(two_to, 17);
    }
    powers_add(16, 16);
    powers_add(32, 32);
    assert(two_to(32) == 0x1_0000 * 0x1_0000);
    assert(two_to(64) == 0x1_0000_0000 * 0x1_0000_0000);
}

/// The carried number has a significand of full length, and an exponent at most one larger.
fn carry(significand: u64, exponent: i32) -> (value: Double)
    requires
        LEAST <= significand <= BEYOND,
        exponent < i32::MAX,
    ensures
        value@ == carried(significand as nat, exponent as int),
        LEAST <= value.significand < BEYOND,
        exponent <= value.exponent <= exponent + 1,
{
    if significand == BEYOND {
        Double { significand: LEAST, exponent: exponent + 1 }
    } else {
        Double { significand, exponent }
    }
}

/// The integer nearest to `a / b`, which is a significand or just beyond.
fn round_quotient(a: u128, b: u128) -> (significand: u64)
    requires
        0 < b,
        b * 0x10_0000_0000_0000 <= a < b * 0x20_0000_0000_0000,
        b <= 0x1_0000_0000_0000_0000_0000_0000,
    ensures
        significand == nearest_integer(a as nat, b as nat),
        LEAST <= significand <= BEYOND,
{
    let floor: u128 = a / b;
    let left: u128 = a % b;
    assert(LEAST <= floor < BEYOND && left < b) by (nonlinear_arith)
        requires
            0 < b,
            b * 0x10_0000_0000_0000 <= a < b * 0x20_0000_0000_0000,
            floor == a / b,
            left == a % b,
    ;
    if 2 * left > b || (2 * left == b && floor % 2 == 1) {
        floor as u64 + 1
    } else {
        floor as u64
    }
}

/// The number nearest to `a / b` times two to the power of `exponent`.
fn nearest_ratio(a: u128, b: u128, exponent: i32) -> (value: Double)
    requires
        0 < a < 0x20_0000_0000_0000 * 0x1_0000_0000_0000_0000,
        0 < b < 0x1_0000_0000_0000_0000,
        -100000 <= exponent <= 100000,
    ensures
        value@ == nearest(a as nat, b as nat, exponent as int),
        LEAST <= value.significand < BEYOND,
        exponent - 128 <= value.exponent <= exponent + 65,
{
    let beyond: u128 = BEYOND as u128;
    let least: u128 = LEAST as u128;
    proof {
        power_sixty_four();
    }
    if a / beyond >= b {
        let mut scale: u128 = b;
        let mut raised: i32 = exponent;
        let ghost mut steps: nat = 0;
        assert(two_to(0) == 1);
        assert(b * two_to(0) == b);
        assert(a >= b * 0x20_0000_0000_0000) by (nonlinear_arith)
            requires
                a / 0x20_0000_0000_0000 >= b,
        ;
        while a / beyond >= scale
            invariant
                beyond == BEYOND,
                0 < b,
                0 < a < 0x20_0000_0000_0000 * 0x1_0000_0000_0000_0000,
                two_to(64) == 0x1_0000_0000_0000_0000,
                scale == b * two_to(steps),
                raised == exponent + steps,
                -100000 <= exponent <= 100000,
                steps <= 64,
                0 < scale <= 0x2_0000_0000_0000_0000,
                a >= scale * 0x10_0000_0000_0000,
                nearest_above(a as nat, b as nat, exponent as int) == nearest_above(
                    a as nat,
                    scale as nat,
                    raised as int,
                ),
            decreases a - scale,
        {
            assert(a >= scale * 0x20_0000_0000_0000 && scale < 0x1_0000_0000_0000_0000) by (nonlinear_arith)
                requires
                    a / 0x20_0000_0000_0000 >= scale,
                    a < 0x20_0000_0000_0000 * 0x1_0000_0000_0000_0000,
            ;
            proof {
                if steps >= 64 {
                    powers_grow(64, steps);
                    assert(b * two_to(steps) >= two_to(steps)) by (nonlinear_arith)
                        requires
                            b >= 1,
                    ;
                }
                assert(2 * (b * two_to(steps)) == b * (2 * two_to(steps))) by (nonlinear_arith);
                assert(two_to(steps + 1) == 2 * two_to(steps));
                steps = steps + 1;
            }
            scale = 2 * scale;
            raised = raised + 1;
        }
        assert(a < scale * 0x20_0000_0000_0000) by (nonlinear_arith)
            requires
                a / 0x20_0000_0000_0000 < scale,
        ;
        carry(round_quotient(a, scale), raised)
    } else {
        let mut scaled: u128 = a;
        let mut lowered: i32 = exponent;
        let ghost mut steps: nat = 0;
        assert(two_to(0) == 1);
        assert(a * two_to(0) == a);
        assert(a < b * 0x20_0000_0000_0000) by (nonlinear_arith)
            requires
                a / 0x20_0000_0000_0000 < b,
        ;
        assert(b * 0x10_0000_0000_0000 <= 0x10_0000_0000_0000 * 0x1_0000_0000_0000_0000) by (nonlinear_arith)
            requires
                b < 0x1_0000_0000_0000_0000,
        ;
        while scaled < b * least
            invariant
                least == LEAST,
                0 < a,
                0 < b < 0x1_0000_0000_0000_0000,
                b * 0x10_0000_0000_0000 <= 0x10_0000_0000_0000 * 0x1_0000_0000_0000_0000,
                two_to(64) == 0x1_0000_0000_0000_0000,
                scaled == a * two_to(steps),
                0 < scaled < b * 0x20_0000_0000_0000,
                lowered == exponent - steps,
                -100000 <= exponent <= 100000,
                steps <= 128,
                nearest_below(a as nat, b as nat, exponent as int) == nearest_below(
                    scaled as nat,
                    b as nat,
                    lowered as int,
                ),
            decreases b * 0x20_0000_0000_0000 - scaled,
        {
            proof {
                if steps >= 128 {
                    powers_add(64, 64);
                    powers_grow(128, steps);
                    assert(a * two_to(steps) >= two_to(steps)) by (nonlinear_arith)
                        requires
                            a >= 1,
                    ;
                }
                assert(2 * (a * two_to(steps)) == a * (2 * two_to(steps))) by (nonlinear_arith);
                assert(two_to(steps + 1) == 2 * two_to(steps));
                steps = steps + 1;
            }
            scaled = 2 * scaled;
            lowered = lowered - 1;
        }
        carry(round_quotient(scaled, b), lowered)
    }
}

impl Double {
    /// The number nearest to an integer.
    pub fn from_integer(n: u64) -> (value: Double)
        requires
            n > 0,
        ensures
            value@ == converted(n as nat),
            value.within(128),
    {
        nearest_ratio(n as u128, 1, 0)
    }

    /// The number nearest to a quotient.
    pub fn divide(&self, other: &Double) -> (value: Double)
        requires
            self.within(1000),
            other.within(1000),
        ensures
            value@ == quotient(self@, other@),
            LEAST <= value.significand < BEYOND,
            self.exponent - other.exponent - 128 <= value.exponent <= self.exponent
                - other.exponent + 65,
    {
        nearest_ratio(
            self.significand as u128,
            other.significand as u128,
            self.exponent - other.exponent,
        )
    }

    /// The number nearest to a product.
    pub fn multiply(&self, other: &Double) -> (value: Double)
        requires
            self.within(1000),
            other.within(1000),
        ensures
            value@ == product(self@, other@),
            LEAST <= value.significand < BEYOND,
            self.exponent + other.exponent - 128 <= value.exponent <= self.exponent
                + other.exponent + 65,
    {
        assert(0 < self.significand * other.significand < 0x20_0000_0000_0000
            * 0x20_0000_0000_0000) by (nonlinear_arith)
            requires
                LEAST <= self.significand < BEYOND,
                LEAST <= other.significand < BEYOND,
        ;
        nearest_ratio(
            self.significand as u128 * other.significand as u128,
            1,
            self.exponent + other.exponent,
        )
    }
}

/// The integer part of a square root is unique.
proof fn root_is_unique(n: nat, left: nat, right: nat)
    requires
        is_integer_root(n, left),
        is_integer_root(n, right),
    ensures
        left == right,
{
    assert(left == right) by (nonlinear_arith)
        requires
            left * left <= n < (left + 1) * (left + 1),
            right * right <= n < (right + 1) * (right + 1),
            left >= 0,
            right >= 0,
    ;
}

/// The integer part of the square root of a number of twice the length of a significand.
fn integer_square_root(n: u128) -> (root: u64)
    requires
        0x10_0000_0000_0000 * 0x10_0000_0000_0000 <= n < 0x20_0000_0000_0000 * 0x20_0000_0000_0000,
    ensures
        root == integer_root(n as nat),
        is_integer_root(n as nat, root as nat),
        LEAST <= root < BEYOND,
{
    let mut low: u64 = LEAST;
    let mut high: u64 = BEYOND;
    while high - low > 1
        invariant
            LEAST <= low < high <= BEYOND,
            low * low <= n < high * high,
        decreases high - low,
    {
        let middle: u64 = low + (high - low) / 2;
        assert(middle * middle <= 0x20_0000_0000_0000 * 0x20_0000_0000_0000) by (nonlinear_arith)
            requires
                0 <= middle <= BEYOND,
        ;
        if middle as u128 * middle as u128 <= n {
            low = middle;
        } else {
            high = middle;
        }
    }
    proof {
        assert(is_integer_root(n as nat, low as nat));
        root_is_unique(n as nat, low as nat, integer_root(n as nat));
    }
    low
}

impl Double {
    /// The number nearest to the square root.
    pub fn root(&self) -> (value: Double)
        requires
            self.within(1000),
        ensures
            value@ == square_root(self@),
            LEAST <= value.significand < BEYOND,
            self.exponent as int / 2 - 26 <= value.exponent <= self.exponent as int / 2 - 25,
    {
        let least: u128 = LEAST as u128;
        let even: bool = self.exponent.checked_rem_euclid(2) == Some(0);
        let wide: u128 = if even {
            self.significand as u128 * least
        } else {
            2 * self.significand as u128 * least
        };
        assert(0x10_0000_0000_0000 * 0x10_0000_0000_0000 <= wide < 0x20_0000_0000_0000 * 0x20_0000_0000_0000) by (nonlinear_arith)
            requires
                LEAST <= self.significand < BEYOND,
                wide == self.significand * 0x10_0000_0000_0000 || wide == 2 * self.significand * 0x10_0000_0000_0000,
        ;
        let root: u64 = integer_square_root(wide);
        assert(root * root + root <= 0x20_0000_0000_0000 * 0x20_0000_0000_0000) by (nonlinear_arith)
            requires
                0 <= root,
                root + 1 <= BEYOND,
        ;
        let square: u128 = root as u128 * root as u128;
        let rounded: u64 = if wide > square + root as u128 {
            root + 1
        } else {
            root
        };
        let half: i32 = match self.exponent.checked_div_euclid(2) {
            Some(half) => half,
            None => 0,
        };
        carry(rounded, half - 26)
    }
}

/// Two to the power of `n`.
fn power_of_two(n: u32) -> (power: u64)
    requires
        n < 64,
    ensures
        power == two_to(n as nat),
{
    proof {
        power_sixty_four();
    }
    let mut power: u64 = 1;
    let mut done: u32 = 0;
    while done < n
        invariant
            done <= n < 64,
            power == two_to(done as nat),
            two_to(64) == 0x1_0000_0000_0000_0000,
        decreases n - done,
    {
        proof {
            powers_grow((done + 2) as nat, 65);
            assert(two_to((done + 1) as nat) == 2 * power);
            powers_grow((done + 1) as nat, 63);
            assert(two_to(64) == 2 * two_to(63));
        }
        power = 2 * power;
        done = done + 1;
    }
    power
}

impl Double {
    /// The integer part and what is left, against the power of two that divides the significand:
    /// whether nothing is left, and whether less than half is.
    fn split(&self) -> (parts: (u32, bool, bool))
        requires
            self.within(1000),
        ensures
            parts.0 == saturated(floor_of(self@)),
            parts.1 == (ceiling_of(self@) == floor_of(self@)),
            parts.2 == (round_of(self@) == floor_of(self@)),
    {
        if self.exponent >= 0 {
            proof {
                powers_grow(0, self.exponent as nat);
                assert(self.significand * two_to(self.exponent as nat) >= self.significand)
                    by (nonlinear_arith)
                    requires
                        two_to(self.exponent as nat) >= 1,
                ;
            }
            return (u32::MAX, true, true);
        }
        let shift: u32 = (-self.exponent) as u32;
        if shift >= 64 {
            proof {
                power_sixty_four();
                powers_grow(64, shift as nat);
                let power = two_to(shift as nat);
                vstd::arithmetic::div_mod::lemma_small_mod(self.significand as nat, power);
                vstd::arithmetic::div_mod::lemma_basic_div(self.significand as int, power as int);
            }
            return (0, false, true);
        }
        let power: u64 = power_of_two(shift);
        proof {
            powers_grow(0, shift as nat);
        }
        let floor: u64 = self.significand / power;
        let left: u64 = self.significand % power;
        assert(left < power) by (nonlinear_arith)
            requires
                left == self.significand % power,
                power > 0,
        ;
        let bounded: u32 = if floor <= u32::MAX as u64 {
            floor as u32
        } else {
            u32::MAX
        };
        (bounded, left == 0, left < power - left)
    }

    /// The integer part, or the largest machine integer.
    pub fn floor(&self) -> (value: u32)
        requires
            self.within(1000),
        ensures
            value == saturated(floor_of(self@)),
    {
        self.split().0
    }

    /// The least integer that is not smaller, or the largest machine integer.
    pub fn ceiling(&self) -> (value: u32)
        requires
            self.within(1000),
        ensures
            value == saturated(ceiling_of(self@)),
    {
        let (floor, whole, _): (u32, bool, bool) = self.split();
        if whole || floor == u32::MAX {
            floor
        } else {
            floor + 1
        }
    }

    /// The nearest integer, the larger one where two are equally near, or the largest machine
    /// integer.
    pub fn round(&self) -> (value: u32)
        requires
            self.within(1000),
        ensures
            value == saturated(round_of(self@)),
    {
        let (floor, _, down): (u32, bool, bool) = self.split();
        if down || floor == u32::MAX {
            floor
        } else {
            floor + 1
        }
    }
}

/// A rounded quotient is off by at most one half.
pub proof fn rounding_is_within_half(a: nat, b: nat)
    requires
        b > 0,
    ensures
        -b <= 2 * (nearest_integer(a, b) * b - a) <= b,
{
    vstd::arithmetic::div_mod::lemma_fundamental_div_mod(a as int, b as int);
    let floor = a / b;
    let left = a % b;
    assert(b * floor == floor * b) by (nonlinear_arith);
    assert((floor + 1) * b == floor * b + b) by (nonlinear_arith);
    vstd::arithmetic::div_mod::lemma_mod_bound(a as int, b as int);
}

/// Integers below two to the power of fifty-three are numbers of the format: they convert to
/// themselves.
pub proof fn integers_convert_exactly(n: nat)
    requires
        0 < n < 0x20_0000_0000_0000,
    ensures
        floor_of(converted(n)) == n,
        ceiling_of(converted(n)) == n,
        round_of(converted(n)) == n,
{
    assert(two_to(0) == 1);
    assert(n * 1 == n);
    exact_below(n, n, 0);
}

/// Doubling an integer until it is a significand divides by a power of two, and is exact.
proof fn exact_below(n: nat, scaled: nat, steps: nat)
    requires
        0 < n,
        scaled == n * two_to(steps),
        0 < scaled < 0x20_0000_0000_0000,
    ensures
        floor_of(nearest_below(scaled, 1, -steps)) == n,
        ceiling_of(nearest_below(scaled, 1, -steps)) == n,
        round_of(nearest_below(scaled, 1, -steps)) == n,
    decreases 0x20_0000_0000_0000 - scaled,
{
    if scaled < 0x10_0000_0000_0000 {
        assert(two_to(steps + 1) == 2 * two_to(steps));
        assert(2 * (n * two_to(steps)) == n * (2 * two_to(steps))) by (nonlinear_arith);
        exact_below(n, 2 * scaled, steps + 1);
    } else {
        let power = two_to(steps);
        powers_grow(0, steps);
        assert(scaled % 1 == 0 && scaled / 1 == scaled);
        assert(nearest_integer(scaled, 1) == scaled);
        vstd::arithmetic::div_mod::lemma_fundamental_div_mod_converse(
            scaled as int,
            power as int,
            n as int,
            0,
        );
        if steps == 0 {
            assert(n * 1 == n);
        }
    }
}

/// Small integers convert to a significand that holds them, shifted.
proof fn converted_form(n: nat, scaled: nat, steps: nat) -> (shift: nat)
    requires
        0 < n,
        scaled == n * two_to(steps),
        0 < scaled < 0x20_0000_0000_0000,
    ensures
        nearest_below(scaled, 1, -steps) == (Binary {
            significand: n * two_to(shift),
            exponent: -shift,
        }),
        0x10_0000_0000_0000 <= n * two_to(shift) < 0x20_0000_0000_0000,
    decreases 0x20_0000_0000_0000 - scaled,
{
    if scaled < 0x10_0000_0000_0000 {
        assert(two_to(steps + 1) == 2 * two_to(steps));
        assert(2 * (n * two_to(steps)) == n * (2 * two_to(steps))) by (nonlinear_arith);
        converted_form(n, 2 * scaled, steps + 1)
    } else {
        assert(scaled % 1 == 0 && scaled / 1 == scaled);
        assert(nearest_integer(scaled, 1) == scaled);
        steps
    }
}

/// A quotient that is a small integer is exact.
proof fn integer_quotient_below(a: nat, b: nat, exponent: int, k: nat, up: nat, down: nat)
    requires
        0 < b,
        0 < k < 0x20_0000_0000_0000,
        0 < a < b * 0x20_0000_0000_0000,
        a * two_to(up) == (k * b) * two_to(down),
        exponent == up - down,
    ensures
        round_of(nearest_below(a, b, exponent)) == k,
    decreases b * 0x20_0000_0000_0000 - a,
{
    if a < b * 0x10_0000_0000_0000 {
        assert(two_to(down + 1) == 2 * two_to(down));
        assert((2 * a) * two_to(up) == (k * b) * (2 * two_to(down))) by (nonlinear_arith)
            requires
                a * two_to(up) == (k * b) * two_to(down),
        ;
        integer_quotient_below(2 * a, b, exponent - 1, k, up, down + 1);
    } else {
        powers_grow(0, up);
        powers_grow(0, down);
        if down < up {
            let more = (up - down) as nat;
            powers_add(down, more);
            powers_grow(1, more);
            assert(two_to(1) == 2 * two_to(0) && two_to(0) == 1);
            let low = two_to(down);
            let high = two_to(more);
            assert(false) by (nonlinear_arith)
                requires
                    a * (low * high) == (k * b) * low,
                    a >= b * 0x10_0000_0000_0000,
                    0 < k < 0x20_0000_0000_0000,
                    b > 0,
                    low > 0,
                    high >= 2,
            ;
        }
        let shift = (down - up) as nat;
        powers_add(up, shift);
        powers_grow(0, shift);
        let power = two_to(shift);
        let low = two_to(up);
        let whole = k * power;
        assert(a == b * whole) by (nonlinear_arith)
            requires
                a * low == (k * b) * (low * power),
                low > 0,
                whole == k * power,
        ;
        assert(a == whole * b + 0) by (nonlinear_arith)
            requires
                a == b * whole,
        ;
        vstd::arithmetic::div_mod::lemma_fundamental_div_mod_converse(
            a as int,
            b as int,
            whole as int,
            0,
        );
        assert(0x10_0000_0000_0000 <= whole < 0x20_0000_0000_0000) by (nonlinear_arith)
            requires
                a == b * whole,
                b * 0x10_0000_0000_0000 <= a < b * 0x20_0000_0000_0000,
                b > 0,
        ;
        assert(nearest_below(a, b, exponent) == (Binary { significand: whole, exponent: -shift }));
        vstd::arithmetic::div_mod::lemma_fundamental_div_mod_converse(
            whole as int,
            power as int,
            k as int,
            0,
        );
        if shift == 0 {
            assert(two_to(0) == 1);
            assert(k * 1 == k);
        }
    }
}

/// A small multiple of a small integer, divided by that integer, is exact.
pub proof fn integer_quotients_are_exact(k: nat, n: nat)
    requires
        0 < k < 0x20_0000_0000_0000,
        0 < n < 0x20_0000_0000_0000,
        k * n < 0x20_0000_0000_0000,
    ensures
        round_of(quotient(converted(k * n), converted(n))) == k,
{
    assert(two_to(0) == 1);
    assert(k * n > 0) by (nonlinear_arith)
        requires
            k > 0,
            n > 0,
    ;
    assert((k * n) * 1 == k * n && n * 1 == n);
    let s = converted_form(k * n, k * n, 0);
    let t = converted_form(n, n, 0);
    let a = (k * n) * two_to(s);
    let b = n * two_to(t);
    assert(a * two_to(t) == (k * b) * two_to(s)) by (nonlinear_arith)
        requires
            a == (k * n) * two_to(s),
            b == n * two_to(t),
    ;
    integer_quotient_below(a, b, t - s, k, t, s);
}

/// Of two integers that are equally near, rounding takes the even one.
pub proof fn ties_go_to_even(a: nat, b: nat)
    requires
        b > 0,
    ensures
        2 * (a % b) == b ==> nearest_integer(a, b) % 2 == 0,
        2 * (a % b) < b ==> nearest_integer(a, b) == a / b,
        2 * (a % b) > b ==> nearest_integer(a, b) == a / b + 1,
{
}

} // verus!
