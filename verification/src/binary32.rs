//! Integers in single precision.

use vstd::prelude::*;
use crate::binary64::{nearest_integer, powers_grow, rounding_is_within_half, two_to};

verus! {

/// The place value of the last of the twenty-four bits of a number in single precision.
pub open spec fn single_unit(n: nat, unit: nat) -> nat
    decreases n - unit,
{
    if unit > 0 && n >= 0x100_0000 * unit {
        single_unit(n, 2 * unit)
    } else {
        unit
    }
}

/// The number in single precision that is nearest to an integer.
pub open spec fn single(n: nat) -> nat {
    nearest_integer(n, single_unit(n, 1)) * single_unit(n, 1)
}

/// The number in single precision that is nearest to an integer.
pub fn nearest_single(n: u128) -> (result: u128)
    requires
        n < 0x100_0000_0000_0000_0000_0000_0000,
    ensures
        result == single(n as nat),
        result <= 2 * n,
{
    let mut unit: u128 = 1;
    while n / 0x100_0000 >= unit
        invariant
            n < 0x100_0000_0000_0000_0000_0000_0000,
            0 < unit <= 0x1_0000_0000_0000_0000_0000_0000,
            unit <= n || unit == 1,
            single_unit(n as nat, 1) == single_unit(n as nat, unit as nat),
        decreases n - unit,
    {
        unit = 2 * unit;
    }
    let floor: u128 = n / unit;
    let left: u128 = n % unit;
    proof {
        vstd::arithmetic::div_mod::lemma_fundamental_div_mod(n as int, unit as int);
        assert(unit * floor == floor * unit) by (nonlinear_arith);
        assert((floor + 1) * unit == floor * unit + unit) by (nonlinear_arith);
        assert(left < unit) by (nonlinear_arith)
            requires
                left == n % unit,
                unit > 0,
        ;
        if n == 0 {
            assert(floor == 0 && left == 0);
        }
    }
    if 2 * left > unit || (2 * left == unit && floor % 2 == 1) {
        (floor + 1) * unit
    } else {
        floor * unit
    }
}

/// The last place of a number is a power of two, such that twenty-four places hold the number and
/// twenty-three do not, unless it is one.
pub proof fn unit_of_single(n: nat) -> (k: nat)
    ensures
        single_unit(n, 1) == two_to(k),
        n < 0x100_0000 * two_to(k),
        k == 0 || 0x80_0000 * two_to(k) <= n,
{
    unit_from(n, 0)
}

proof fn unit_from(n: nat, k: nat) -> (last: nat)
    requires
        k == 0 || 0x80_0000 * two_to(k) <= n,
    ensures
        single_unit(n, two_to(k)) == two_to(last),
        n < 0x100_0000 * two_to(last),
        last == 0 || 0x80_0000 * two_to(last) <= n,
    decreases n - two_to(k),
{
    powers_grow(0, k);
    if n >= 0x100_0000 * two_to(k) {
        assert(two_to(k + 1) == 2 * two_to(k));
        unit_from(n, k + 1)
    } else {
        k
    }
}

/// Rounding an integer is off by at most one part in two to the power of twenty-four.
pub proof fn single_is_near(n: nat)
    ensures
        -n <= 0x100_0000 * (single(n) - n) <= n,
{
    let k = unit_of_single(n);
    let unit = two_to(k);
    powers_grow(0, k);
    rounding_is_within_half(n, unit);
    if k == 0 {
        assert(two_to(0) == 1);
        assert(nearest_integer(n, 1) == n);
    }
}

/// Integers of up to twenty-four bits are numbers of the format.
pub proof fn short_integers_are_exact(n: nat)
    requires
        n <= 0x100_0000,
    ensures
        single(n) == n,
{
    reveal_with_fuel(single_unit, 2);
    if n < 0x100_0000 {
        assert(single_unit(n, 1) == 1);
        assert(nearest_integer(n, 1) == n);
    } else {
        assert(single_unit(n, 1) == 2);
        assert(nearest_integer(n, 2) == 0x80_0000);
    }
}

/// Rounding does not lead past two to the power of thirty-one, which is a number of the format.
pub proof fn rounding_stays_below(n: nat)
    requires
        n <= 0x8000_0000,
    ensures
        single(n) <= 0x8000_0000,
{
    reveal_with_fuel(single_unit, 9);
    let unit = single_unit(n, 1);
    let nearest = nearest_integer(n, unit);
    assert(unit == 1 || unit == 2 || unit == 4 || unit == 8 || unit == 16 || unit == 32 || unit
        == 64 || unit == 128 || unit == 256);
    assert(unit == 1 ==> nearest <= 0x8000_0000);
    assert(unit == 2 ==> nearest <= 0x4000_0000);
    assert(unit == 4 ==> nearest <= 0x2000_0000);
    assert(unit == 8 ==> nearest <= 0x1000_0000);
    assert(unit == 16 ==> nearest <= 0x800_0000);
    assert(unit == 32 ==> nearest <= 0x400_0000);
    assert(unit == 64 ==> nearest <= 0x200_0000);
    assert(unit == 128 ==> nearest <= 0x100_0000);
    assert(unit == 256 ==> nearest <= 0x80_0000);
}

} // verus!
