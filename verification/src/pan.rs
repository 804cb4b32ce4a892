//! Track position across the stereo field, in the steps a row of pads offers.
//!
//! An odd number of steps, so one of them is exactly centre. Gains are given as the bits of
//! single precision numbers, which order as the numbers do where none is negative.

use vstd::prelude::*;

verus! {

/// Steps a row offers, one short of its width so centre lands on a pad.
pub const PAN_STEPS: usize = 7;

/// The step that sits dead centre.
pub const CENTRE_STEP: u8 = 3;

/// Where a track sits across the stereo field.
///
/// `width` collapses the source's own stereo image as the track moves off centre, so a
/// hard-panned take keeps both its channels instead of dropping one.
#[derive(Debug, Clone, Copy, PartialEq, Eq, Structural)]
pub struct Pan {
    pub(crate) left: u32,
    pub(crate) right: u32,
    pub(crate) width: u32,
}

/// Gain for the left output at each step: constant power across the sweep, scaled so centre
/// plays at the recorded level. The right output is its mirror image.
pub open spec fn left_gain(step: int) -> u32 {
    if step == 0 {
        0x3FB5_04F3  // the square root of two
    } else if step == 1 {
        0x3FAE_D9EC  // 1.3660254
    } else if step == 2 {
        0x3F9C_C471  // 1.2247449
    } else if step == 4 {
        0x3F35_04F3  // one over the square root of two
    } else if step == 5 {
        0x3EBB_67AE  // 0.3660254
    } else if step == 6 {
        0  // 0.0
    } else {
        0x3F80_0000  // 1.0
    }
}

/// How much of the source's own stereo image survives at each step.
pub open spec fn image_width(step: int) -> u32 {
    if step == 0 || step == 6 {
        0  // 0.0
    } else if step == 1 || step == 5 {
        0x3EAA_AAAB  // a third
    } else if step == 2 || step == 4 {
        0x3F2A_AAAB  // two thirds
    } else {
        0x3F80_0000  // 1.0
    }
}

impl Pan {
    /// Gain for the left output.
    pub open(crate) spec fn to_left(self) -> u32 {
        self.left
    }

    /// Gain for the right output.
    pub open(crate) spec fn to_right(self) -> u32 {
        self.right
    }

    /// How much of the source's own stereo image survives.
    pub open(crate) spec fn image(self) -> u32 {
        self.width
    }

    /// Dead centre, with the source's image untouched.
    pub fn centre() -> (r: Self)
        ensures
            r.to_left() == left_gain(CENTRE_STEP as int),
            r.to_right() == left_gain(CENTRE_STEP as int),
            r.image() == image_width(CENTRE_STEP as int),
    {
        Pan { left: 0x3F80_0000, right: 0x3F80_0000, width: 0x3F80_0000 }
    }

    /// Gain for the left output, as the bits of a single precision number.
    pub fn left(self) -> (r: u32)
        ensures
            r == self.to_left(),
    {
        self.left
    }

    /// Gain for the right output, as the bits of a single precision number.
    pub fn right(self) -> (r: u32)
        ensures
            r == self.to_right(),
    {
        self.right
    }

    /// How much of the source's own stereo image survives, from one to nothing, as the bits of
    /// a single precision number.
    pub fn width(self) -> (r: u32)
        ensures
            r == self.image(),
    {
        self.width
    }
}

/// Where a step sits. Steps past the end read as centre.
pub fn pan_for_step(step: u8) -> (r: Pan)
    ensures
        r.to_left() == left_gain(step as int),
        r.to_right() == left_gain(6 - step),
        r.image() == image_width(step as int),
{
    match step {
        0 => Pan { left: 0x3FB5_04F3, right: 0, width: 0 },
        1 => Pan { left: 0x3FAE_D9EC, right: 0x3EBB_67AE, width: 0x3EAA_AAAB },
        2 => Pan { left: 0x3F9C_C471, right: 0x3F35_04F3, width: 0x3F2A_AAAB },
        4 => Pan { left: 0x3F35_04F3, right: 0x3F9C_C471, width: 0x3F2A_AAAB },
        5 => Pan { left: 0x3EBB_67AE, right: 0x3FAE_D9EC, width: 0x3EAA_AAAB },
        6 => Pan { left: 0, right: 0x3FB5_04F3, width: 0 },
        _ => Pan::centre(),
    }
}

/// The ladder travels left to right, and is a mirror of itself.
pub proof fn ladder_sweeps(below: int, above: int)
    requires
        0 <= below < above < PAN_STEPS,
    ensures
        left_gain(above) < left_gain(below),
        left_gain(6 - below) < left_gain(6 - above),
        image_width(below) == image_width(6 - below),
{
}

} // verus!
