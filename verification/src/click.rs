//! The metronome click.
//!
//! A synthesised blip rather than a sample. Beat one is pitched higher and runs slightly
//! longer than the others. What is kept here is when a blip sounds and how long it has left;
//! amplitudes are given as the bits of single precision numbers.

use vstd::prelude::*;

use crate::single::{round_to_single, rounding_to_single_is_near, to_single};
use crate::time::SampleRate;

verus! {

/// Which blip to sound.
#[derive(Debug, Clone, Copy, PartialEq, Eq, Structural)]
pub enum Tone {
    /// Beat one.
    Accent,
    /// Any other beat.
    Beat,
    /// Between beats.
    Sub,
}

impl Tone {
    /// Length in seconds as a single precision number, in units of `2^-30`: 28, 18 and 12
    /// milliseconds.
    pub open spec fn seconds(self) -> int {
        match self {
            Tone::Accent => 30_064_772,
            Tone::Beat => 19_327_352,
            Tone::Sub => 12_884_902,
        }
    }

    /// Length in frames at a sample rate, as single precision arithmetic gives it: the rate is
    /// taken as a single precision number, the product is rounded to one, and what is past
    /// the point is dropped. Never less than one.
    pub open spec fn frames(self, rate: int) -> int {
        let whole = to_single(self.seconds() * to_single(rate)) / 0x4000_0000;
        if whole < 1 {
            1
        } else {
            whole
        }
    }

    /// Length in frames at a sample rate.
    pub fn length(self, sample_rate: SampleRate) -> (r: u32)
        ensures
            r == self.frames(sample_rate.rate()),
            r > 0,
    {
        let seconds: u64 = match self {
            Tone::Accent => 30_064_772,
            Tone::Beat => 19_327_352,
            Tone::Sub => 12_884_902,
        };
        let hz: u64 = round_to_single(sample_rate.hz() as u64);
        proof {
            assert(0 <= seconds * hz <= 30_064_772 * 0x2_0000_0000) by (nonlinear_arith)
                requires
                    0 <= seconds <= 30_064_772,
                    0 <= hz <= 0x2_0000_0000,
            ;
        }
        let whole: u64 = round_to_single(seconds * hz) / 0x4000_0000;
        if whole < 1 {
            1
        } else {
            whole as u32
        }
    }
}

/// How the click starts up.
#[derive(Debug, Clone, Copy, PartialEq, Eq, Structural)]
pub struct ClickConfig {
    /// Whether the click sounds.
    pub enabled: bool,
    /// Peak amplitude, `0.0..=1.0`, as the bits of a single precision number.
    pub level: u32,
}

impl Default for ClickConfig {
    fn default() -> (r: Self)
        ensures
            r.enabled,
            r.level == 0x3EB3_3333,
    {
        ClickConfig { enabled: true, level: 0x3EB3_3333 }
    }
}

/// The bits of a single precision number held to between zero and one. What is not a number
/// stays as it is, and so does the zero below zero.
pub open spec fn clamped(level: u32) -> u32 {
    if 0x3F80_0000 < level <= 0x7F80_0000 {
        0x3F80_0000
    } else if 0x8000_0000 < level <= 0xFF80_0000 {
        0
    } else {
        level
    }
}

fn clamp_level(level: u32) -> (r: u32)
    ensures
        r == clamped(level),
{
    if 0x3F80_0000 < level && level <= 0x7F80_0000 {
        0x3F80_0000
    } else if 0x8000_0000 < level && level <= 0xFF80_0000 {
        0
    } else {
        level
    }
}

/// Whether an amplitude is one of the two zeros.
pub open spec fn silent(level: u32) -> bool {
    level == 0 || level == 0x8000_0000
}

/// The frames of a run that a blip sounds in, and what its envelope starts from.
#[derive(Debug, Clone, Copy, PartialEq, Eq, Structural)]
pub struct Blip {
    /// Frames that sound, from the start of the run.
    pub frames: usize,
    /// Frames of the blip left at the start of the run.
    pub remaining: u32,
    /// Length of the whole blip.
    pub length: u32,
    /// Peak amplitude, as the bits of a single precision number.
    pub level: u32,
}

/// Keeps track of the click.
#[derive(Debug, Clone, Copy, PartialEq, Eq, Structural)]
pub struct Click {
    pub(crate) enabled: bool,
    pub(crate) level: u32,
    pub(crate) sample_rate: SampleRate,
    /// Frames left in the current blip.
    pub(crate) remaining: u32,
    /// Length of the current blip, for the envelope.
    pub(crate) length: u32,
}

impl Click {
    /// Whether the click sounds.
    pub open(crate) spec fn on(self) -> bool {
        self.enabled
    }

    /// Peak amplitude.
    pub open(crate) spec fn peak(self) -> u32 {
        self.level
    }

    /// The rate it runs at.
    pub open(crate) spec fn rate(self) -> SampleRate {
        self.sample_rate
    }

    /// Frames left in the current blip.
    pub open(crate) spec fn left(self) -> u32 {
        self.remaining
    }

    /// Length of the current blip.
    pub open(crate) spec fn whole(self) -> u32 {
        self.length
    }

    /// The click turned on or off. Turning it off cuts any blip still sounding.
    pub open(crate) spec fn switched(self, enabled: bool) -> Click {
        Click {
            enabled,
            remaining: if enabled {
                self.remaining
            } else {
                0
            },
            ..self
        }
    }

    /// The click at another peak amplitude.
    pub open(crate) spec fn turned(self, level: u32) -> Click {
        Click { level: clamped(level), ..self }
    }

    /// The click at the start of a blip, if it is on.
    pub open(crate) spec fn struck(self, tone: Tone) -> Click {
        if self.enabled {
            Click {
                remaining: tone.frames(self.sample_rate.rate()) as u32,
                length: tone.frames(self.sample_rate.rate()) as u32,
                ..self
            }
        } else {
            self
        }
    }

    /// Frames of a run that a blip sounds in.
    pub open(crate) spec fn sounding(self, frames: int) -> int {
        if silent(self.level) {
            0
        } else if frames < self.remaining {
            frames
        } else {
            self.remaining as int
        }
    }

    /// The click after a run.
    pub open(crate) spec fn played(self, frames: int) -> Click {
        Click { remaining: (self.remaining - self.sounding(frames)) as u32, ..self }
    }

    /// Builds a silent click.
    pub fn new(config: ClickConfig, sample_rate: SampleRate) -> (r: Self)
        ensures
            r.on() == config.enabled,
            r.peak() == clamped(config.level),
            r.rate() == sample_rate,
            r.left() == 0,
            r.whole() == 1,
    {
        Self {
            enabled: config.enabled,
            level: clamp_level(config.level),
            sample_rate,
            remaining: 0,
            length: 1,
        }
    }

    /// Whether the click sounds.
    pub fn enabled(&self) -> (r: bool)
        ensures
            r == self.on(),
    {
        self.enabled
    }

    /// Turns the click on or off. Cuts any blip still sounding.
    pub fn set_enabled(&mut self, enabled: bool)
        ensures
            *final(self) == old(self).switched(enabled),
            final(self).on() == enabled,
            final(self).left() == (if enabled {
                old(self).left()
            } else {
                0
            }),
            final(self).peak() == old(self).peak(),
            final(self).rate() == old(self).rate(),
            final(self).whole() == old(self).whole(),
    {
        self.enabled = enabled;
        if !enabled {
            self.remaining = 0;
        }
    }

    /// Sets the peak amplitude, clamped to `0.0..=1.0`.
    pub fn set_level(&mut self, level: u32)
        ensures
            *final(self) == old(self).turned(level),
            final(self).peak() == clamped(level),
            final(self).on() == old(self).on(),
            final(self).left() == old(self).left(),
            final(self).rate() == old(self).rate(),
            final(self).whole() == old(self).whole(),
    {
        self.level = clamp_level(level);
    }

    /// Starts a blip in the voice `tone` calls for. Returns whether it did, which takes the
    /// click being on.
    pub fn trigger(&mut self, tone: Tone) -> (r: bool)
        ensures
            r == old(self).on(),
            *final(self) == old(self).struck(tone),
            !r ==> *final(self) == *old(self),
            r ==> final(self).left() == tone.frames(old(self).rate().rate())
                && final(self).whole() == final(self).left() && final(self).on()
                && final(self).peak() == old(self).peak() && final(self).rate() == old(self).rate(),
    {
        if !self.enabled {
            return false;
        }
        let length: u32 = tone.length(self.sample_rate);
        self.length = length;
        self.remaining = length;
        true
    }

    /// Whether a blip is still sounding.
    pub fn is_sounding(&self) -> (r: bool)
        ensures
            r == (self.left() > 0),
    {
        self.remaining > 0
    }

    /// Plays the blip on for so many frames. A click turned down to nothing stands still.
    pub fn play(&mut self, frames: usize) -> (r: Blip)
        ensures
            *final(self) == old(self).played(frames as int),
            r.frames == old(self).sounding(frames as int),
            r.remaining == old(self).left(),
            r.length == old(self).whole(),
            r.level == old(self).peak(),
            r.frames == (if silent(old(self).peak()) {
                0
            } else if frames < old(self).left() {
                frames as int
            } else {
                old(self).left() as int
            }),
            final(self).left() == old(self).left() - r.frames,
            final(self).on() == old(self).on(),
            final(self).peak() == old(self).peak(),
            final(self).rate() == old(self).rate(),
            final(self).whole() == old(self).whole(),
    {
        let before: u32 = self.remaining;
        let sounding: u32 = if self.level == 0 || self.level == 0x8000_0000 {
            0
        } else if frames < before as usize {
            frames as u32
        } else {
            before
        };
        self.remaining = before - sounding;
        Blip {
            frames: sounding as usize,
            remaining: before,
            length: self.length,
            level: self.level,
        }
    }
}

/// Milliseconds a blip lasts: longest on the first beat of a bar, shortest between beats.
pub open spec fn milliseconds(tone: Tone) -> int {
    match tone {
        Tone::Accent => 28,
        Tone::Beat => 18,
        Tone::Sub => 12,
    }
}

/// A blip lasts as long as it is meant to at any rate, to the frame that single precision numbers
/// give, and never for nothing.
pub proof fn blips_last_their_milliseconds(tone: Tone, rate: int)
    requires
        0 < rate <= 1_000_000,
    ensures
        tone.frames(rate) >= 1,
        tone.frames(rate) > 1 ==> tone.frames(rate) * 1_000 <= milliseconds(tone) * rate + 10,
        milliseconds(tone) * rate < (tone.frames(rate) + 1) * 1_000 + 10,
{
    rounding_to_single_is_near(rate);
    let exact = tone.seconds() * rate;
    assert(0 <= exact) by (nonlinear_arith)
        requires
            exact == tone.seconds() * rate,
            tone.seconds() > 0,
            rate > 0,
    ;
    rounding_to_single_is_near(exact);
    match tone {
        Tone::Accent => {
            assert(exact == 30_064_772 * rate);
        },
        Tone::Beat => {
            assert(exact == 19_327_352 * rate);
        },
        Tone::Sub => {
            assert(exact == 12_884_902 * rate);
        },
    }
}

/// A blip sounds for as long as it lasts, whatever runs it is cut into: what sounds of it in a run
/// and what is left after it are together what was left before, and struck anew it is whole again.
pub proof fn blips_sound_to_their_end(click: Click, frames: int, tone: Tone)
    requires
        0 <= frames,
        !silent(click.peak()),
        0 < click.rate().rate() <= 1_000_000,
    ensures
        click.sounding(frames) + click.played(frames).left() == click.left(),
        0 <= click.sounding(frames) <= frames,
        click.sounding(frames) < frames ==> click.played(frames).left() == 0,
        click.played(frames).on() == click.on(),
        click.played(frames).peak() == click.peak(),
        click.on() ==> click.struck(tone).left() == tone.frames(click.rate().rate())
            && click.struck(tone).whole() == click.struck(tone).left(),
        !click.on() ==> click.struck(tone) == click,
{
    blips_last_their_milliseconds(tone, click.rate().rate());
}

} // verus!
