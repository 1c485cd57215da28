//! Prime table sizes and the mixing function of the n-gram hashes.

use vstd::prelude::*;

verus! {

pub const SPLITMIX_GAMMA: u64 = 0x9E37_79B9_7F4A_7C15;

pub const SPLITMIX_M1: u64 = 0xBF58_476D_1CE4_E5B9;

pub const SPLITMIX_M2: u64 = 0x94D0_49BB_1331_11EB;

/// The SplitMix64 output for a state: add the increment, then mix in three rounds.
pub open spec fn mixed(state: u64) -> u64 {
    let a = state.wrapping_add(SPLITMIX_GAMMA);
    let b = (a ^ (a >> 30u64)).wrapping_mul(SPLITMIX_M1);
    let c = (b ^ (b >> 27u64)).wrapping_mul(SPLITMIX_M2);
    c ^ (c >> 31u64)
}

/// The SplitMix64 output for a state.
pub fn splitmix64(value: u64) -> (output: u64)
    ensures
        output == mixed(value),
{
    let a: u64 = value.wrapping_add(SPLITMIX_GAMMA);
    let b: u64 = (a ^ (a >> 30u64)).wrapping_mul(SPLITMIX_M1);
    let c: u64 = (b ^ (b >> 27u64)).wrapping_mul(SPLITMIX_M2);
    c ^ (c >> 31u64)
}

/// Whether `n` has no divisor but one and itself.
pub open spec fn prime(n: nat) -> bool {
    n >= 2 && forall|d: nat| 2 <= d < n ==> #[trigger] (n % d) != 0
}

proof fn small_divisor_exists(n: nat, d: nat)
    requires
        2 <= d < n,
        n % d == 0,
    ensures
        exists|e: nat| 2 <= e && #[trigger] (n % e) == 0 && e * e <= n,
{
    if d * d <= n {
        assert(n % d == 0);
    } else {
        let e = n / d;
        vstd::arithmetic::div_mod::lemma_fundamental_div_mod(n as int, d as int);
        assert(n == d * e);
        assert(e >= 2 && e < d) by (nonlinear_arith)
            requires
                n == d * e,
                2 <= d < n,
                d * d > n,
        ;
        assert(e * e <= n) by (nonlinear_arith)
            requires
                n == d * e,
                e < d,
        ;
        assert(n == e * d) by (nonlinear_arith)
            requires
                n == d * e,
        ;
        vstd::arithmetic::div_mod::lemma_mod_multiples_basic(d as int, e as int);
        assert(n % e == 0);
    }
}

proof fn no_small_divisor_means_prime(n: nat, bound: nat)
    requires
        n >= 2,
        forall|d: nat| 2 <= d < bound ==> #[trigger] (n % d) != 0,
        bound * bound > n,
    ensures
        prime(n),
{
    if !prime(n) {
        let d = choose|d: nat| 2 <= d < n && #[trigger] (n % d) == 0;
        small_divisor_exists(n, d);
        let e = choose|e: nat| 2 <= e && #[trigger] (n % e) == 0 && e * e <= n;
        assert(e < bound) by (nonlinear_arith)
            requires
                e * e <= n,
                bound * bound > n,
        ;
        assert(n % e != 0);
    }
}

/// Whether a number is prime.
pub fn is_prime(value: u64) -> (result: bool)
    ensures
        result == prime(value as nat),
{
    if value < 2 {
        return false;
    }
    if value % 2 == 0 {
        if value == 2 {
            assert(prime(2));
            return true;
        }
        assert(value as nat % 2 == 0);
        return false;
    }
    let mut divisor: u64 = 3;
    assert forall|d: nat| 2 <= d < 3 implies #[trigger] (value as nat % d) != 0 by {
        assert(d == 2);
    }
    while divisor <= value / divisor
        invariant
            value >= 3,
            value % 2 == 1,
            3 <= divisor,
            divisor % 2 == 1,
            divisor <= 0x1_0000_0001,
            forall|d: nat| 2 <= d < divisor ==> #[trigger] (value as nat % d) != 0,
        decreases 0x1_0000_0003 - divisor,
    {
        proof {
            vstd::arithmetic::div_mod::lemma_fundamental_div_mod(value as int, divisor as int);
            assert(divisor * divisor <= value) by (nonlinear_arith)
                requires
                    divisor <= value as int / divisor as int,
                    value == divisor * (value as int / divisor as int) + value as int
                        % divisor as int,
                    value as int % divisor as int >= 0,
                    divisor > 0,
            ;
            assert(divisor < 0x1_0000_0000) by (nonlinear_arith)
                requires
                    divisor * divisor <= value,
                    value <= 0xffff_ffff_ffff_ffff,
            ;
        }
        if value % divisor == 0 {
            proof {
                assert(divisor < value) by (nonlinear_arith)
                    requires
                        divisor * divisor <= value,
                        divisor >= 3,
                ;
                assert(value as nat % divisor as nat == 0);
            }
            return false;
        }
        proof {
            let next = (divisor + 1) as nat;
            if value as nat % next == 0 {
                // An even divisor of an odd number.
                vstd::arithmetic::div_mod::lemma_fundamental_div_mod(value as int, next as int);
                let q = value as int / next as int;
                let half = next as int / 2;
                assert(next == 2 * half);
                assert(value == 2 * (half * q)) by (nonlinear_arith)
                    requires
                        value == next * q,
                        next == 2 * half,
                ;
                assert(value % 2 == 0);
            }
            assert forall|d: nat| 2 <= d < divisor + 2 implies #[trigger] (value as nat % d)
                != 0 by {
                if d == divisor {
                } else if d == divisor + 1 {
                    assert(d == next);
                }
            }
        }
        divisor = divisor + 2;
    }
    proof {
        vstd::arithmetic::div_mod::lemma_fundamental_div_mod(value as int, divisor as int);
        assert(divisor * divisor > value) by (nonlinear_arith)
            requires
                divisor > value as int / divisor as int,
                value == divisor * (value as int / divisor as int) + value as int % divisor as int,
                (value as int % divisor as int) < divisor,
                divisor > 0,
        ;
        no_small_divisor_means_prime(value as nat, divisor as nat);
    }
    true
}

/// Number of primes above `start` and up to `end`.
pub open spec fn primes_up_to(start: nat, end: nat) -> nat
    decreases end,
{
    if end <= start {
        0
    } else {
        primes_up_to(start, (end - 1) as nat) + if prime(end) {
            1nat
        } else {
            0
        }
    }
}

proof fn primes_grow(start: nat, low: nat, high: nat)
    requires
        low <= high,
    ensures
        primes_up_to(start, low) <= primes_up_to(start, high),
    decreases high - low,
{
    if low < high {
        primes_grow(start, low, (high - 1) as nat);
    }
}

/// Whether `p` is the `count`-th prime above `start`, or `start` itself for a count of zero.
pub open spec fn is_nth_prime_after(p: nat, start: nat, count: nat) -> bool {
    if count == 0 {
        p == start
    } else {
        p > start && prime(p) && primes_up_to(start, p) == count
    }
}

/// There is only one such prime.
pub proof fn nth_prime_is_unique(left: nat, right: nat, start: nat, count: nat)
    requires
        is_nth_prime_after(left, start, count),
        is_nth_prime_after(right, start, count),
    ensures
        left == right,
{
    if left < right {
        primes_grow(start, left, (right - 1) as nat);
    } else if right < left {
        primes_grow(start, right, (left - 1) as nat);
    }
}

/// Primes of a larger count are larger.
pub proof fn nth_primes_ascend(left: nat, right: nat, start: nat, low: nat, high: nat)
    requires
        is_nth_prime_after(left, start, low),
        is_nth_prime_after(right, start, high),
        low < high,
    ensures
        left < right,
{
    if left >= right {
        primes_grow(start, right, left);
    }
}

/// The `count`-th prime above `start`; `None` when there are not that many below the limit of the
/// integers.
pub fn find_nth_prime_after(start: u64, count: usize) -> (found: Option<u64>)
    ensures
        match found {
            Some(p) => is_nth_prime_after(p as nat, start as nat, count as nat),
            None => primes_up_to(start as nat, u64::MAX as nat) < count,
        },
{
    let mut prime_found: u64 = start;
    let mut seen: usize = 0;
    while seen < count
        invariant
            seen <= count,
            start <= prime_found,
            is_nth_prime_after(prime_found as nat, start as nat, seen as nat),
            primes_up_to(start as nat, prime_found as nat) == seen,
        decreases count - seen,
    {
        if prime_found == u64::MAX {
            return None;
        }
        prime_found = prime_found + 1;
        while !is_prime(prime_found)
            invariant
                seen < count,
                start < prime_found,
                primes_up_to(start as nat, (prime_found - 1) as nat) == seen,
            decreases u64::MAX - prime_found,
        {
            if prime_found == u64::MAX {
                return None;
            }
            prime_found = prime_found + 1;
        }
        seen = seen + 1;
    }
    Some(prime_found)
}

/// The `count`-th prime above `start`, when there are that many.
pub fn nth_prime_after(start: u64, count: usize) -> (p: u64)
    requires
        primes_up_to(start as nat, u64::MAX as nat) >= count,
    ensures
        is_nth_prime_after(p as nat, start as nat, count as nat),
{
    match find_nth_prime_after(start, count) {
        Some(p) => p,
        None => {
            assert(false);
            0
        },
    }
}

/// A prime is no product of smaller numbers, and a number from two on that is none is one.
pub proof fn primes_are_no_products(n: nat, a: nat, b: nat)
    ensures
        prime(n) && a >= 2 && b >= 2 ==> a * b != n,
        n >= 2 && !prime(n) ==> exists|d: nat| 2 <= d < n && #[trigger] (n % d) == 0,
        prime(n) ==> n >= 2,
{
    if prime(n) && a >= 2 && b >= 2 && a * b == n {
        assert(a < n) by (nonlinear_arith)
            requires
                a * b == n,
                a >= 2,
                b >= 2,
        ;
        vstd::arithmetic::div_mod::lemma_mod_multiples_basic(b as int, a as int);
        assert(b * a == a * b) by (nonlinear_arith);
        assert(n % a == 0);
    }
}

/// Counted primes follow each other: the first one is the first prime above the start, and there is
/// no prime between one and the next.
pub proof fn counted_primes_are_neighbours(
    left: nat,
    right: nat,
    start: nat,
    count: nat,
    between: nat,
)
    requires
        is_nth_prime_after(left, start, count),
        is_nth_prime_after(right, start, count + 1),
    ensures
        left < right,
        prime(right),
        left < between < right ==> !prime(between),
        is_nth_prime_after(start, start, 0),
{
    nth_primes_ascend(left, right, start, count, count + 1);
    if left < between < right && prime(between) {
        if count == 0 {
            primes_grow(start, start, (between - 1) as nat);
        } else {
            primes_grow(start, left, (between - 1) as nat);
        }
        primes_grow(start, between, (right - 1) as nat);
    }
}

} // verus!
