//! Track volume, in the eight steps a row of pads offers.
//!
//! The ladder is uneven: silence, three cuts, unity, three boosts. Amplitudes are given as
//! the bits of single precision numbers, which order as the numbers do where none is negative.

use vstd::prelude::*;

verus! {

/// Steps a row offers.
pub const GAIN_STEPS: usize = 8;

/// The step a take plays at the level it was recorded.
pub const UNITY_STEP: u8 = 4;

/// Amplitude for each step: off, then -18, -12 and -6 dB, unity, then +3, +6 and +9.
pub open spec fn ladder(step: int) -> u32 {
    if step == 0 {
        0  // 0.0
    } else if step == 1 {
        0x3E00_0000  // 0.125
    } else if step == 2 {
        0x3E80_0000  // 0.25
    } else if step == 3 {
        0x3F00_0000  // 0.5
    } else if step == 5 {
        0x3FB4_DD2F  // 1.413
    } else if step == 6 {
        0x4000_0000  // 2.0
    } else if step == 7 {
        0x4034_5A1D  // 2.818
    } else {
        0x3F80_0000  // 1.0
    }
}

/// The amplitude a step plays at, as the bits of a single precision number. Steps past the
/// end read as unity.
pub fn gain_for_step(step: u8) -> (r: u32)
    ensures
        r == ladder(step as int),
{
    match step {
        0 => 0,
        1 => 0x3E00_0000,
        2 => 0x3E80_0000,
        3 => 0x3F00_0000,
        5 => 0x3FB4_DD2F,
        6 => 0x4000_0000,
        7 => 0x4034_5A1D,
        _ => 0x3F80_0000,
    }
}

/// The ladder only climbs.
pub proof fn ladder_climbs(below: int, above: int)
    requires
        0 <= below < above < GAIN_STEPS,
    ensures
        ladder(below) < ladder(above),
{
}

/// A step past the end plays as the unity step does.
pub proof fn past_the_end_is_unity(step: int)
    requires
        step >= GAIN_STEPS,
    ensures
        ladder(step) == ladder(UNITY_STEP as int),
{
}

} // verus!
