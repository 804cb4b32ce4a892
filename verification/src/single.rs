//! Single precision rounding on integers, as [`crate::double`] does for doubles.

use vstd::arithmetic::div_mod::*;
use vstd::arithmetic::power2::*;
use vstd::prelude::*;

use crate::double::nearest_even;

verus! {

/// The first integer that takes more bits than a single precision number holds.
pub const SIGNIFICANT: u64 = 0x100_0000;

/// How many of the lowest bits of `x` a single precision number has no room for.
pub open spec fn excess_bits(x: int) -> nat
    decreases x,
{
    if x < SIGNIFICANT {
        0
    } else {
        1 + excess_bits(x / 2)
    }
}

/// A whole number of units as a single precision number holds it.
pub open spec fn to_single(x: int) -> int {
    let unit = pow2(excess_bits(x)) as int;
    nearest_even(x, unit) * unit
}

proof fn excess_fits(x: int)
    requires
        0 <= x,
    ensures
        pow2(excess_bits(x)) > 0,
        pow2(excess_bits(x)) <= x + 1,
        x >= SIGNIFICANT ==> pow2(excess_bits(x)) * 0x80_0000 <= x,
    decreases x,
{
    lemma_pow2_pos(excess_bits(x));
    lemma2_to64();
    if x >= SIGNIFICANT {
        excess_fits(x / 2);
        lemma_pow2_unfold(excess_bits(x));
        if x / 2 < SIGNIFICANT {
            assert(excess_bits(x / 2) == 0);
        }
    }
}

/// Rounds a whole number of units to the single precision number nearest it.
pub(crate) fn round_to_single(x: u64) -> (r: u64)
    requires
        x < 0x4000_0000_0000_0000,
    ensures
        r == to_single(x as int),
        r <= 2 * x,
{
    let mut left: u64 = x;
    let mut unit: u64 = 1;
    let ghost mut dropped: nat = 0;
    proof {
        lemma2_to64();
        excess_fits(x as int);
    }
    while left >= SIGNIFICANT
        invariant
            unit == pow2(dropped),
            unit >= 1,
            excess_bits(x as int) == dropped + excess_bits(left as int),
            left <= x,
            x < 0x4000_0000_0000_0000,
            pow2(excess_bits(x as int)) <= x + 1,
        decreases left,
    {
        proof {
            lemma_pow2_unfold(dropped + 1);
            if dropped + 1 < excess_bits(x as int) {
                lemma_pow2_strictly_increases(dropped + 1, excess_bits(x as int));
            }
        }
        left = left / 2;
        unit = unit * 2;
        proof {
            dropped = dropped + 1;
        }
    }
    let floor: u64 = x / unit;
    let rest: u64 = x % unit;
    proof {
        lemma_fundamental_div_mod(x as int, unit as int);
        lemma_mod_bound(x as int, unit as int);
        assert(unit * floor == floor * unit) by (nonlinear_arith);
        assert((floor + 1) * unit == floor * unit + unit) by (nonlinear_arith);
        if x < SIGNIFICANT {
            assert(unit == 1);
            assert(rest == 0);
        }
    }
    if rest * 2 > unit || (rest * 2 == unit && floor % 2 == 1) {
        (floor + 1) * unit
    } else {
        floor * unit
    }
}

/// Rounding to a single precision number moves a value by no more than half of what its last bit
/// stands for, and leaves one that fits as it is.
pub proof fn rounding_to_single_is_near(x: int)
    requires
        0 <= x,
    ensures
        (to_single(x) - x) * 0x100_0000 <= x,
        (x - to_single(x)) * 0x100_0000 <= x,
        x < SIGNIFICANT ==> to_single(x) == x,
{
    excess_fits(x);
    lemma2_to64();
    let unit = pow2(excess_bits(x)) as int;
    let r = nearest_even(x, unit);
    lemma_fundamental_div_mod(x, unit);
    lemma_mod_bound(x, unit);
    let floor = x / unit;
    let rest = x % unit;
    assert(unit * floor == floor * unit) by (nonlinear_arith);
    assert((floor + 1) * unit == floor * unit + unit) by (nonlinear_arith);
    if x < SIGNIFICANT {
        assert(unit == 1);
        assert(unit * floor == floor) by (nonlinear_arith)
            requires
                unit == 1,
        ;
        assert(floor == x);
    }
}

} // verus!
