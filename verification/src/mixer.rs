//! What the engine tells whatever makes the samples.
//!
//! The samples themselves are floating point, and belong to a [`Mixer`]. Everything it is told is
//! written to a [`Score`], which only its own methods do.

use vstd::prelude::*;

use crate::click::{Blip, Tone};
use crate::clip::ClipView;
use crate::engine::Voice;
use crate::ids::SlotAddr;
use crate::time::Frames;

verus! {

/// What a mixer is told to do.
#[verifier::ext_equal]
pub enum Sound<S> {
    /// The block starts out silent.
    Clear,
    /// It is asked whether the mix has reached silence, and answers.
    Faded(bool),
    /// Every level is at nothing.
    Silence,
    /// A blip starts.
    Strike(Tone),
    /// A pad plays over a run.
    Pad {
        /// Which pad.
        addr: SlotAddr,
        /// The gain it is heading for.
        target: u32,
        /// Its clip.
        clip: Option<ClipView<S>>,
        /// Where the clip is anchored.
        anchor: Frames,
        /// How many frames of the loop's opening come from its tail.
        pickup: Frames,
        /// The transport position.
        position: Frames,
        /// Frames a level takes to travel the full gain range.
        declick: int,
        /// Where the run begins in the block.
        offset: int,
        /// How many frames it has.
        frames: int,
    },
    /// A blip sounds over a run.
    Blip {
        /// The blip.
        blip: Blip,
        /// Where the run begins in the block.
        offset: int,
        /// How many frames it has.
        frames: int,
    },
    /// The block is held at full scale, and so many samples had to be held.
    Limit(u32),
}

/// Where a run lies in a block.
#[derive(Debug, Clone, Copy, PartialEq, Eq, Structural)]
pub struct Stretch {
    /// The transport position it begins at.
    pub position: Frames,
    /// Frames a level takes to travel the full gain range.
    pub declick: usize,
    /// Where it begins in the block, in frames.
    pub offset: usize,
    /// How many frames it has.
    pub frames: usize,
}

/// A pad played over a stretch of a block, as the mixer is told.
pub open spec fn pad_told<S>(addr: SlotAddr, voice: Voice<'_, S>, stretch: Stretch) -> Sound<S> {
    Sound::Pad {
        addr,
        target: voice.target,
        clip: match voice.clip {
            Some(clip) => Some(clip@),
            None => None,
        },
        anchor: voice.anchor,
        pickup: voice.pickup,
        position: stretch.position,
        declick: stretch.declick as int,
        offset: stretch.offset as int,
        frames: stretch.frames as int,
    }
}

/// Everything a mixer was told. It is there for what is stated of it, and holds nothing when the
/// program runs.
#[verifier::reject_recursive_types(S)]
pub struct Score<S> {
    told: Ghost<Seq<Sound<S>>>,
}

impl<S> View for Score<S> {
    type V = Seq<Sound<S>>;

    /// Everything the mixer was told so far, in order.
    closed spec fn view(&self) -> Seq<Sound<S>> {
        self.told@
    }
}

impl<S> Score<S> {
    /// Nothing told yet.
    pub fn new() -> (r: Self)
        ensures
            r@ == Seq::<Sound<S>>::empty(),
    {
        Score { told: Ghost(Seq::empty()) }
    }
}

/// What makes samples of what the engine decides.
pub trait Mixer<S> {
    /// Starts a block out silent.
    fn clear(&mut self, score: &mut Score<S>, out: &mut [S])
        ensures
            final(score)@ == old(score)@.push(Sound::Clear),
    ;

    /// Whether the mix has reached silence.
    fn is_faded(&self, score: &mut Score<S>) -> (r: bool)
        ensures
            final(score)@ == old(score)@.push(Sound::Faded(r)),
    ;

    /// Cuts every level to nothing.
    fn silence(&mut self, score: &mut Score<S>)
        ensures
            final(score)@ == old(score)@.push(Sound::Silence),
    ;

    /// Starts a blip over.
    fn strike(&mut self, score: &mut Score<S>, tone: Tone)
        ensures
            final(score)@ == old(score)@.push(Sound::Strike(tone)),
    ;

    /// Plays a pad over a stretch of the block, if it is heard.
    fn pad(
        &mut self,
        score: &mut Score<S>,
        addr: SlotAddr,
        voice: &Voice<'_, S>,
        stretch: Stretch,
        out: &mut [S],
    )
        requires
            voice.clip matches Some(clip) ==> clip@.wf(),
        ensures
            final(score)@ == old(score)@.push(pad_told(addr, *voice, stretch)),
    ;

    /// Plays what is left of a blip over a stretch of the block.
    fn blip(&mut self, score: &mut Score<S>, blip: Blip, stretch: Stretch, out: &mut [S])
        ensures
            final(score)@ == old(score)@.push(
                Sound::Blip {
                    blip,
                    offset: stretch.offset as int,
                    frames: stretch.frames as int,
                },
            ),
    ;

    /// Holds the block at full scale. Returns how many samples had to be held.
    fn limit(&mut self, score: &mut Score<S>, out: &mut [S]) -> (r: u32)
        ensures
            final(score)@ == old(score)@.push(Sound::Limit(r)),
    ;
}

/// A mixer that makes no sound, for an engine that runs with nothing to be heard on.
#[derive(Debug, Clone, Copy, PartialEq, Eq, Structural)]
pub struct Unheard;

impl<S> Mixer<S> for Unheard {
    fn clear(&mut self, score: &mut Score<S>, out: &mut [S])
        ensures
            final(out)@ == old(out)@,
    {
        score.told = Ghost(score.told@.push(Sound::Clear));
    }

    fn is_faded(&self, score: &mut Score<S>) -> (r: bool)
        ensures
            r,
    {
        score.told = Ghost(score.told@.push(Sound::Faded(true)));
        true
    }

    fn silence(&mut self, score: &mut Score<S>) {
        score.told = Ghost(score.told@.push(Sound::Silence));
    }

    fn strike(&mut self, score: &mut Score<S>, tone: Tone) {
        score.told = Ghost(score.told@.push(Sound::Strike(tone)));
    }

    fn pad(
        &mut self,
        score: &mut Score<S>,
        addr: SlotAddr,
        voice: &Voice<'_, S>,
        stretch: Stretch,
        out: &mut [S],
    )
        ensures
            final(out)@ == old(out)@,
    {
        score.told = Ghost(score.told@.push(pad_told(addr, *voice, stretch)));
    }

    fn blip(&mut self, score: &mut Score<S>, blip: Blip, stretch: Stretch, out: &mut [S])
        ensures
            final(out)@ == old(out)@,
    {
        score.told = Ghost(
            score.told@.push(
                Sound::Blip {
                    blip,
                    offset: stretch.offset as int,
                    frames: stretch.frames as int,
                },
            ),
        );
    }

    fn limit(&mut self, score: &mut Score<S>, out: &mut [S]) -> (r: u32)
        ensures
            final(out)@ == old(out)@,
            r == 0,
    {
        score.told = Ghost(score.told@.push(Sound::Limit(0)));
        0
    }
}

} // verus!
