//! Double precision rounding on integers.
//!
//! A double holds 53 significant bits, and every operation on doubles gives the double
//! nearest the exact result, the even one of two that are equally near. Multiplying or
//! dividing by a power of two changes no significant bit. So a positive value can be kept as
//! an integer in units of some fixed power of two, and an operation rounded here to 53
//! significant bits gives bit for bit what the floating-point unit gives.

use vstd::arithmetic::div_mod::*;
use vstd::arithmetic::mul::*;
use vstd::arithmetic::power2::*;
use vstd::prelude::*;

verus! {

/// The first integer that takes more bits than a double holds.
pub const SIGNIFICANT: u128 = 0x20_0000_0000_0000;

/// How many of the lowest bits of `x` a double has no room for.
pub open spec fn spare_bits(x: int) -> nat
    decreases x,
{
    if x < SIGNIFICANT {
        0
    } else {
        1 + spare_bits(x / 2)
    }
}

/// The whole number nearest `n / d`, the even one of two that are equally near.
pub open spec fn nearest_even(n: int, d: int) -> int {
    let floor = n / d;
    let rest = n % d;
    if 2 * rest < d {
        floor
    } else if 2 * rest > d {
        floor + 1
    } else {
        floor + floor % 2
    }
}

/// `n / d` as a double holds it, for a quotient of at least `2^52` units.
pub open spec fn to_double(n: int, d: int) -> int {
    let unit = pow2(spare_bits(n / d)) as int;
    nearest_even(n, d * unit) * unit
}

/// The whole number nearest `n / d`, the larger of two that are equally near.
pub open spec fn nearest_up(n: int, d: int) -> int {
    if 2 * (n % d) < d {
        n / d
    } else {
        n / d + 1
    }
}

/// A quotient has its spare bits cut down to 53 significant ones.
pub(crate) proof fn spare_bits_fit(x: int)
    requires
        0 <= x,
    ensures
        x / (pow2(spare_bits(x)) as int) < SIGNIFICANT,
        pow2(spare_bits(x)) > 0,
        x >= SIGNIFICANT ==> pow2(spare_bits(x)) * 0x10_0000_0000_0000 <= x,
        x < SIGNIFICANT ==> pow2(spare_bits(x)) == 1,
    decreases x,
{
    lemma_pow2_pos(spare_bits(x));
    lemma2_to64();
    if x >= SIGNIFICANT {
        spare_bits_fit(x / 2);
        let half = pow2(spare_bits(x / 2)) as int;
        lemma_pow2_unfold(spare_bits(x));
        assert(pow2(spare_bits(x)) == 2 * half);
        lemma_div_denominator(x, 2, half);
        assert(2 * half == half * 2) by (nonlinear_arith);
    }
}

/// Rounds `n / d` to the double nearest it.
pub(crate) fn round_to_double(n: u128, d: u128) -> (r: u128)
    requires
        d > 0,
        n < 0x4000_0000_0000_0000_0000_0000_0000_0000,
        n / d >= 0x10_0000_0000_0000,
    ensures
        r == to_double(n as int, d as int),
{
    let whole: u128 = n / d;
    let mut left: u128 = whole;
    let mut unit: u128 = 1;
    let ghost mut dropped: nat = 0;
    proof {
        lemma2_to64();
        spare_bits_fit(whole as int);
        assert(whole * d <= n) by {
            lemma_fundamental_div_mod(n as int, d as int);
            lemma_mul_is_commutative(whole as int, d as int);
            lemma_mod_bound(n as int, d as int);
        }
        assert(whole <= n) by (nonlinear_arith)
            requires
                whole * d <= n,
                d >= 1,
                whole >= 0,
        ;
    }
    while left >= SIGNIFICANT
        invariant
            unit == pow2(dropped),
            unit >= 1,
            spare_bits(whole as int) == dropped + spare_bits(left as int),
            left <= whole,
            whole <= n,
            n < 0x4000_0000_0000_0000_0000_0000_0000_0000,
            pow2(spare_bits(whole as int)) <= whole,
        decreases left,
    {
        proof {
            lemma_pow2_unfold(dropped + 1);
            if dropped + 1 < spare_bits(whole as int) {
                lemma_pow2_strictly_increases(dropped + 1, spare_bits(whole as int));
            }
        }
        left = left / 2;
        unit = unit * 2;
        proof {
            dropped = dropped + 1;
        }
    }
    proof {
        assert(unit == pow2(spare_bits(whole as int)));
        assert(unit * 0x8_0000_0000_0000 <= whole) by {
            if whole >= SIGNIFICANT {
            } else {
                assert(unit == 1);
            }
        }
        assert(d * unit * 0x8_0000_0000_0000 <= n) by (nonlinear_arith)
            requires
                unit * 0x8_0000_0000_0000 <= whole,
                whole * d <= n,
                d > 0,
        ;
        assert(d * unit > 0) by (nonlinear_arith)
            requires
                d > 0,
                unit > 0,
        ;
    }
    let divisor: u128 = d * unit;
    let floor: u128 = n / divisor;
    let rest: u128 = n % divisor;
    proof {
        lemma_fundamental_div_mod(n as int, divisor as int);
        lemma_mod_bound(n as int, divisor as int);
        lemma_div_denominator(n as int, d as int, unit as int);
        assert(floor == whole / unit);
        spare_bits_fit(whole as int);
        assert(floor < SIGNIFICANT);
        assert(floor * unit <= whole) by {
            lemma_fundamental_div_mod(whole as int, unit as int);
            lemma_mul_is_commutative(floor as int, unit as int);
            lemma_mod_bound(whole as int, unit as int);
        }
        assert((floor + 1) * unit == floor * unit + unit) by (nonlinear_arith);
    }
    let twice: u128 = rest * 2;
    let up: bool = twice > divisor || (twice == divisor && floor % 2 == 1);
    if up {
        (floor + 1) * unit
    } else {
        floor * unit
    }
}

/// Rounding moves a quotient by no more than one part in `2^52`, either way.
pub(crate) proof fn rounding_is_near(n: int, d: int)
    requires
        d > 0,
        0 <= n,
        n / d >= 0x10_0000_0000_0000,
    ensures
        (to_double(n, d) * d - n) * 0x10_0000_0000_0000 <= n,
        (n - to_double(n, d) * d) * 0x10_0000_0000_0000 <= n,
{
    let whole = n / d;
    spare_bits_fit(whole);
    let unit = pow2(spare_bits(whole)) as int;
    let step = d * unit;
    assert(step > 0) by (nonlinear_arith)
        requires
            d > 0,
            unit > 0,
            step == d * unit,
    ;
    lemma_fundamental_div_mod(n, step);
    lemma_mod_bound(n, step);
    lemma_fundamental_div_mod(n, d);
    lemma_mod_bound(n, d);
    let near = nearest_even(n, step);
    let floor = n / step;
    assert(near == floor || near == floor + 1);
    assert(-step <= near * step - n <= step) by (nonlinear_arith)
        requires
            near == floor || near == floor + 1,
            n == step * floor + n % step,
            0 <= n % step < step,
    ;
    assert(near * unit * d == near * step) by (nonlinear_arith)
        requires
            step == d * unit,
    ;
    assert(unit * 0x10_0000_0000_0000 <= whole);
    assert(step * 0x10_0000_0000_0000 <= n) by (nonlinear_arith)
        requires
            step == d * unit,
            unit * 0x10_0000_0000_0000 <= whole,
            n == d * whole + n % d,
            n % d >= 0,
            d > 0,
    ;
}

/// Rounding moves a quotient by less than one part in `2^52`.
pub(crate) proof fn rounding_is_close(n: int, d: int)
    requires
        d > 0,
        0 <= n,
        n / d >= 0x10_0000_0000_0000,
    ensures
        0x10_0000_0000_0000 <= to_double(n, d) <= n / d + (n / d) / 0x10_0000_0000_0000,
{
    let whole = n / d;
    spare_bits_fit(whole);
    let unit = pow2(spare_bits(whole)) as int;
    lemma_div_denominator(n, d, unit);
    let floor = whole / unit;
    lemma_fundamental_div_mod(whole, unit);
    lemma_mod_bound(whole, unit);
    assert(unit * 0x10_0000_0000_0000 <= whole);
    lemma_div_is_ordered(unit * 0x10_0000_0000_0000, whole, 0x10_0000_0000_0000);
    lemma_div_multiples_vanish(unit, 0x10_0000_0000_0000);
    assert(unit <= whole / 0x10_0000_0000_0000);
    assert((floor + 1) * unit == floor * unit + unit) by (nonlinear_arith);
    assert(unit * floor == floor * unit) by (nonlinear_arith);
    assert(0x10_0000_0000_0000 <= floor) by (nonlinear_arith)
        requires
            unit * 0x10_0000_0000_0000 <= whole,
            whole < (floor + 1) * unit,
            unit > 0,
    ;
    assert(0x10_0000_0000_0000 <= floor * unit) by (nonlinear_arith)
        requires
            0x10_0000_0000_0000 <= floor,
            unit >= 1,
    ;
}

/// A double is already what it rounds to.
pub proof fn doubles_are_exact(x: int)
    requires
        0 <= x < SIGNIFICANT,
    ensures
        to_double(x, 1) == x,
{
    lemma2_to64();
    assert(spare_bits(x / 1) == 0);
    assert(x * 1 == x);
}

/// Rounding to a double keeps order against any value a double holds exactly: a result is on
/// the same side of such a value as what was rounded.
pub(crate) proof fn rounding_stays_between(x: int, low: int, high: int)
    requires
        0 < low <= x <= high,
        spare_bits(x) == spare_bits(low) ==> low % (pow2(spare_bits(x)) as int) == 0,
        spare_bits(x) == spare_bits(high) ==> high % (pow2(spare_bits(x)) as int) == 0,
        spare_bits(low) < spare_bits(x) ==> x >= SIGNIFICANT,
        spare_bits(low) <= spare_bits(x) <= spare_bits(high),
        spare_bits(low) < spare_bits(x) ==> low <= pow2(spare_bits(x)) * 0x10_0000_0000_0000,
        spare_bits(x) < spare_bits(high) ==> pow2(spare_bits(x)) * SIGNIFICANT <= high,
    ensures
        low <= to_double(x, 1) <= high,
{
    spare_bits_fit(x);
    let unit = pow2(spare_bits(x)) as int;
    let floor = x / unit;
    assert(x / 1 == x);
    assert(1 * unit == unit);
    lemma_fundamental_div_mod(x, unit);
    lemma_mod_bound(x, unit);
    let r = nearest_even(x, unit);
    assert(r == floor || (r == floor + 1 && x % unit > 0));
    assert((floor + 1) * unit == floor * unit + unit) by (nonlinear_arith);
    assert(unit * floor == floor * unit) by (nonlinear_arith);
    if spare_bits(x) == spare_bits(low) {
        let k = low / unit;
        lemma_fundamental_div_mod(low, unit);
        assert(low == unit * k);
        assert(k <= floor) by (nonlinear_arith)
            requires
                low == unit * k,
                low <= x,
                x < (floor + 1) * unit,
                unit > 0,
        ;
        assert(k * unit <= floor * unit) by (nonlinear_arith)
            requires
                k <= floor,
                unit > 0,
        ;
        assert(unit * k == k * unit) by (nonlinear_arith);
    } else {
        assert(unit * 0x10_0000_0000_0000 <= x);
        assert(0x10_0000_0000_0000 <= floor) by (nonlinear_arith)
            requires
                unit * 0x10_0000_0000_0000 <= x,
                x < (floor + 1) * unit,
                unit > 0,
        ;
        assert(0x10_0000_0000_0000 * unit <= floor * unit) by (nonlinear_arith)
            requires
                0x10_0000_0000_0000 <= floor,
                unit > 0,
        ;
    }
    if spare_bits(x) == spare_bits(high) {
        let k = high / unit;
        lemma_fundamental_div_mod(high, unit);
        assert(high == unit * k);
        assert(unit * k == k * unit) by (nonlinear_arith);
        if r == floor + 1 {
            assert(floor < k) by (nonlinear_arith)
                requires
                    k * unit == high,
                    x <= high,
                    floor * unit < x,
                    unit > 0,
            ;
            assert((floor + 1) * unit <= k * unit) by (nonlinear_arith)
                requires
                    floor < k,
                    unit > 0,
            ;
        }
    } else {
        assert((floor + 1) * unit <= SIGNIFICANT * unit) by (nonlinear_arith)
            requires
                floor < SIGNIFICANT,
                unit > 0,
        ;
    }
}

} // verus!
