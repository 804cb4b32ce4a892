//! Whole-state settings the controller holds and the engine follows.

use vstd::prelude::*;

use crate::gain::UNITY_STEP;
use crate::ids::{LaunchMode, PadMask, Polyphony, TrackInput};
use crate::pan::CENTRE_STEP;

verus! {

/// Everything the controller sets as a whole value.
///
/// Delivered latest-wins: an unread copy is replaced, not queued.
#[derive(Debug, Clone, Copy, PartialEq, Eq)]
pub struct Settings {
    /// How loud each track plays, as a step on the gain ladder.
    pub gains: [u8; 8],
    /// Pads that do not sound.
    pub muted: PadMask,
    /// Pads that sound to the exclusion of the rest. Empty means no solo.
    pub soloed: PadMask,
    /// Which input each track records.
    pub inputs: [TrackInput; 8],
    /// Where each track's clips are anchored when launched.
    pub launch_modes: [LaunchMode; 8],
    /// Beats each track opens its loops from the tail for. Zero takes the head.
    pub pickups: [u8; 8],
    /// How many of each track's loops may sound at once.
    pub polyphony: [Polyphony; 8],
    /// Where each track sits across the stereo field, as a step on the pan row.
    pub pans: [u8; 8],
    /// How loud each loop plays within its track, as a step on the gain ladder.
    pub loop_gains: [[u8; 8]; 8],
    /// How far each loop is nudged from where its track sits, as a step on the pan row.
    pub loop_pans: [[u8; 8]; 8],
    /// Which tracks play their input through as it arrives.
    pub passthrough: [bool; 8],
}

/// Whether every track is at unity, dead centre, on the default input, handing over between
/// its loops and following the grid, with nothing muted, soloed or played through.
pub open spec fn untouched(settings: Settings) -> bool {
    &&& settings.muted == 0
    &&& settings.soloed == 0
    &&& forall|track: int|
        #![trigger settings.gains@[track]]
        0 <= track < 8 ==> {
            &&& settings.gains@[track] == UNITY_STEP
            &&& settings.inputs@[track] == TrackInput::Stereo
            &&& settings.launch_modes@[track] == LaunchMode::Follow
            &&& settings.pickups@[track] == 0
            &&& settings.polyphony@[track] == Polyphony::Single
            &&& settings.pans@[track] == CENTRE_STEP
            &&& !settings.passthrough@[track]
            &&& forall|slot: int|
                #![trigger settings.loop_gains@[track]@[slot]]
                #![trigger settings.loop_pans@[track]@[slot]]
                0 <= slot < 8 ==> settings.loop_gains@[track]@[slot] == UNITY_STEP
                    && settings.loop_pans@[track]@[slot] == CENTRE_STEP
        }
}

impl Settings {
    /// Every track at unity on the default input, with nothing muted or soloed.
    pub fn new() -> (r: Self)
        ensures
            untouched(r),
    {
        Self {
            gains: [UNITY_STEP; 8],
            muted: 0,
            soloed: 0,
            inputs: [TrackInput::Stereo; 8],
            launch_modes: [LaunchMode::Follow; 8],
            pickups: [0; 8],
            polyphony: [Polyphony::Single; 8],
            pans: [CENTRE_STEP; 8],
            loop_gains: [[UNITY_STEP; 8]; 8],
            loop_pans: [[CENTRE_STEP; 8]; 8],
            passthrough: [false; 8],
        }
    }
}

} // verus!
