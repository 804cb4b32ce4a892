//! Musical time.
//!
//! The transport free-runs from process start at a fixed tempo. All positions are frame
//! counts from that origin.
//!
//! Frames per bar is rounded to an integer once; everything else derives from it with
//! integer math. Bar `n` starts at exactly `n * frames_per_bar`, so there is no
//! accumulating drift, only a fixed tempo error of under half a frame per bar.

use core::ops::{Add, Sub};

use vstd::arithmetic::div_mod::{lemma_mod_multiples_basic, lemma_mod_multiples_vanish};
use vstd::arithmetic::power2::*;
use vstd::prelude::*;

use crate::double::{
    nearest_even, nearest_up, round_to_double, rounding_is_near, rounding_stays_between,
    spare_bits, to_double,
};

verus! {

/// An invalid musical-time value.
#[derive(Debug, Clone, Copy, PartialEq, Eq, Structural)]
pub enum TimeError {
    /// Sample rate was zero.
    ZeroSampleRate,
    /// Tempo outside the supported range.
    TempoOutOfRange,
    /// Beats per bar was zero, or the beat unit was not a power of two.
    InvalidTimeSignature,
    /// Bar length was under one frame or over `u32::MAX` frames.
    BarLengthUnrepresentable,
}

impl TimeError {
    /// What to tell the user.
    pub open spec fn text(self) -> Seq<char> {
        match self {
            TimeError::ZeroSampleRate => "sample rate must be greater than zero"@,
            TimeError::TempoOutOfRange => "tempo must be between 20 and 300 bpm"@,
            TimeError::InvalidTimeSignature =>
                "time signature must have at least one beat per bar and a power-of-two beat unit"@,
            TimeError::BarLengthUnrepresentable =>
                "the resulting bar length is not representable"@,
        }
    }

    /// What to tell the user.
    pub fn message(self) -> (r: &'static str)
        ensures
            r@ == self.text(),
    {
        match self {
            TimeError::ZeroSampleRate => "sample rate must be greater than zero",
            TimeError::TempoOutOfRange => "tempo must be between 20 and 300 bpm",
            TimeError::InvalidTimeSignature =>
                "time signature must have at least one beat per bar and a power-of-two beat unit",
            TimeError::BarLengthUnrepresentable => "the resulting bar length is not representable",
        }
    }
}

/// MIDI clock ticks in a quarter note.
pub const CLOCK_TICKS_PER_QUARTER: u64 = 24;

/// Lowest supported tempo: the bits of the double 20.0, in beats per minute.
pub const MIN_BPM: u64 = 0x4034_0000_0000_0000;

/// Highest supported tempo: the bits of the double 300.0, in beats per minute.
pub const MAX_BPM: u64 = 0x4072_C000_0000_0000;

/// A position or duration in sample frames, counted from the transport origin.
///
/// One frame is one sample per channel, so this is channel-count independent.
#[derive(Debug, Clone, Copy, PartialEq, Eq, PartialOrd, Ord, Hash, Default, Structural)]
pub struct Frames(pub u64);

impl Frames {
    /// The transport origin.
    pub fn zero() -> (r: Self)
        ensures
            r.0 == 0,
    {
        Frames(0)
    }

    /// Converts a duration in milliseconds at the given sample rate.
    pub fn from_millis(millis: u64, sample_rate: SampleRate) -> (r: Self)
        ensures
            r.0 == (if millis * sample_rate.rate() <= u64::MAX {
                millis * sample_rate.rate()
            } else {
                u64::MAX as int
            }) / 1000,
    {
        let hz: u32 = sample_rate.hz();
        proof {
            assert(0 <= millis * hz <= 0xffff_ffff_ffff_ffff * 0xffff_ffff) by (nonlinear_arith)
                requires
                    0 <= millis <= 0xffff_ffff_ffff_ffff,
                    0 <= hz <= 0xffff_ffff,
            ;
        }
        let exact: u128 = millis as u128 * hz as u128;
        if exact <= u64::MAX as u128 {
            Self(exact as u64 / 1000)
        } else {
            Self(u64::MAX / 1000)
        }
    }

    /// Subtraction that saturates at the origin.
    #[must_use]
    pub fn saturating_sub(self, rhs: Self) -> (r: Self)
        ensures
            r.0 == (if self.0 >= rhs.0 {
                self.0 - rhs.0
            } else {
                0
            }),
    {
        Self(self.0.saturating_sub(rhs.0))
    }

    /// The earlier of two positions.
    pub fn earlier(self, other: Self) -> (r: Self)
        ensures
            r.0 == (if self.0 <= other.0 {
                self.0
            } else {
                other.0
            }),
    {
        if self.0 <= other.0 {
            self
        } else {
            other
        }
    }
}

impl Add for Frames {
    type Output = Self;

    fn add(self, rhs: Self) -> (r: Self) {
        Self(self.0 + rhs.0)
    }
}

impl vstd::std_specs::ops::AddSpecImpl for Frames {
    open spec fn obeys_add_spec() -> bool {
        true
    }

    open spec fn add_req(self, rhs: Self) -> bool {
        self.0 + rhs.0 <= u64::MAX
    }

    open spec fn add_spec(self, rhs: Self) -> Self {
        Frames((self.0 + rhs.0) as u64)
    }
}

impl Sub for Frames {
    type Output = Self;

    fn sub(self, rhs: Self) -> (r: Self) {
        Self(self.0 - rhs.0)
    }
}

impl vstd::std_specs::ops::SubSpecImpl for Frames {
    open spec fn obeys_sub_spec() -> bool {
        true
    }

    open spec fn sub_req(self, rhs: Self) -> bool {
        self.0 >= rhs.0
    }

    open spec fn sub_spec(self, rhs: Self) -> Self {
        Frames((self.0 - rhs.0) as u64)
    }
}

/// A sample rate in hertz.
#[derive(Debug, Clone, Copy, PartialEq, Eq, PartialOrd, Ord, Hash, Structural)]
pub struct SampleRate(pub(crate) u32);

impl SampleRate {
    /// A rate is never zero.
    #[verifier::type_invariant]
    pub open(crate) spec fn wf(self) -> bool {
        self.0 > 0
    }

    /// The rate in hertz.
    pub open(crate) spec fn rate(self) -> int {
        self.0 as int
    }

    /// # Errors
    ///
    /// [`TimeError::ZeroSampleRate`] if `hz` is zero.
    pub fn new(hz: u32) -> (r: Result<Self, TimeError>)
        ensures
            r is Ok <==> hz > 0,
            r is Ok ==> r->Ok_0.rate() == hz && r->Ok_0.wf(),
            r is Err ==> r->Err_0 == TimeError::ZeroSampleRate,
    {
        if hz == 0 {
            return Err(TimeError::ZeroSampleRate);
        }
        Ok(Self(hz))
    }

    /// The rate in hertz.
    pub fn hz(self) -> (r: u32)
        ensures
            r == self.rate(),
            r > 0,
            self.wf(),
    {
        proof {
            use_type_invariant(&self);
        }
        self.0
    }
}

/// The lowest tempo in units of `2^-48` beats per minute.
pub const MIN_UNITS: u64 = 0x14_0000_0000_0000;

/// The highest tempo in units of `2^-48` beats per minute.
pub const MAX_UNITS: u64 = 0x12C_0000_0000_0000;

/// One beat per minute in units of `2^-48`.
pub const BPM_UNIT: u64 = 0x1_0000_0000_0000;

/// How far apart the doubles with a given exponent field lie, in units of `2^-48`.
pub open spec fn spacing(field: int) -> int {
    if field == 0x403 {
        1
    } else if field == 0x404 {
        2
    } else if field == 0x405 {
        4
    } else if field == 0x406 {
        8
    } else {
        16
    }
}

/// A tempo in beats per minute.
///
/// Held as the bits of a double. Positive doubles order as their bits do.
#[derive(Debug, Clone, Copy, PartialEq, Eq, Structural)]
pub struct Tempo(pub(crate) u64);

impl Tempo {
    /// A tempo is always in range.
    #[verifier::type_invariant]
    pub open(crate) spec fn wf(self) -> bool {
        MIN_BPM <= self.0 <= MAX_BPM
    }

    /// The bits of the tempo as a double.
    pub open(crate) spec fn bits(self) -> u64 {
        self.0
    }

    /// The tempo in units of `2^-48` beats per minute, which every tempo is a whole number of.
    pub open(crate) spec fn units(self) -> int {
        (self.0 as int % 0x10_0000_0000_0000 + 0x10_0000_0000_0000) * spacing(
            self.0 as int / 0x10_0000_0000_0000,
        )
    }

    /// Takes the bits of a double.
    ///
    /// # Errors
    ///
    /// [`TimeError::TempoOutOfRange`] if the double is not finite or falls outside
    /// [`MIN_BPM`]..=[`MAX_BPM`]. Infinities and anything that is not a number have bits above
    /// every number, and negative numbers have bits above those.
    pub fn new(bpm: u64) -> (r: Result<Self, TimeError>)
        ensures
            r is Ok <==> MIN_BPM <= bpm <= MAX_BPM,
            r is Ok ==> r->Ok_0.bits() == bpm && r->Ok_0.wf(),
            r is Err ==> r->Err_0 == TimeError::TempoOutOfRange,
    {
        if bpm < MIN_BPM || bpm > MAX_BPM {
            return Err(TimeError::TempoOutOfRange);
        }
        Ok(Self(bpm))
    }

    /// The tempo in beats per minute, as the bits of a double.
    pub fn bpm(self) -> (r: u64)
        ensures
            r == self.bits(),
            self.wf(),
    {
        proof {
            use_type_invariant(&self);
        }
        self.0
    }

    /// The tempo in units of `2^-48` beats per minute.
    pub(crate) fn to_units(self) -> (r: u64)
        ensures
            r == self.units(),
            MIN_UNITS <= r <= MAX_UNITS,
    {
        proof {
            use_type_invariant(&self);
            units_in_range(self);
        }
        let field: u64 = self.0 / 0x10_0000_0000_0000;
        let mantissa: u64 = self.0 % 0x10_0000_0000_0000 + 0x10_0000_0000_0000;
        if field == 0x403 {
            mantissa
        } else if field == 0x404 {
            mantissa * 2
        } else if field == 0x405 {
            mantissa * 4
        } else if field == 0x406 {
            mantissa * 8
        } else {
            mantissa * 16
        }
    }

    /// The tempo that is so many units, which have to be ones a double holds.
    fn of_units(units: u64) -> (r: Self)
        requires
            MIN_UNITS <= units <= MAX_UNITS,
            units as int % (pow2(spare_bits(units as int)) as int) == 0,
        ensures
            r.units() == units,
    {
        proof {
            units_spacing(units as int);
        }
        if units < 0x20_0000_0000_0000 {
            Self(0x4030_0000_0000_0000 + (units - 0x10_0000_0000_0000))
        } else if units < 0x40_0000_0000_0000 {
            Self(0x4040_0000_0000_0000 + (units / 2 - 0x10_0000_0000_0000))
        } else if units < 0x80_0000_0000_0000 {
            Self(0x4050_0000_0000_0000 + (units / 4 - 0x10_0000_0000_0000))
        } else if units < 0x100_0000_0000_0000 {
            Self(0x4060_0000_0000_0000 + (units / 8 - 0x10_0000_0000_0000))
        } else {
            Self(0x4070_0000_0000_0000 + (units / 16 - 0x10_0000_0000_0000))
        }
    }

    /// The tempo so many beats per minute away, held to the supported range.
    pub open spec fn moved(self, beats: int) -> Self {
        choose|r: Tempo| r.wf() && #[trigger] r.units() == nudged_units(self.units(), beats)
    }

    /// The tempo this many beats per minute away, held to the supported range.
    #[must_use]
    pub fn nudged(self, beats: i32) -> (r: Self)
        ensures
            r == self.moved(beats as int),
            r.units() == nudged_units(self.units(), beats as int),
            r.wf(),
    {
        let r: Self = self.nudge(beats);
        proof {
            let other = self.moved(beats as int);
            same_units_same_tempo(r, other);
        }
        r
    }

    fn nudge(self, beats: i32) -> (r: Self)
        ensures
            r.units() == nudged_units(self.units(), beats as int),
            r.wf(),
    {
        proof {
            use_type_invariant(&self);
            units_in_range(self);
        }
        let sum: i128 = self.to_units() as i128 + beats as i128 * BPM_UNIT as i128;
        if sum < MIN_UNITS as i128 {
            proof {
                units_of_ends();
            }
            Self(MIN_BPM)
        } else if sum > MAX_UNITS as i128 {
            proof {
                units_of_ends();
            }
            Self(MAX_BPM)
        } else {
            proof {
                sums_round_in_range(sum as int);
            }
            let rounded: u128 = round_to_double(sum as u128, 1);
            let r = Self::of_units(rounded as u64);
            proof {
                use_type_invariant(&r);
            }
            r
        }
    }

    /// The whole number of beats per minute nearest this tempo, the larger of two.
    pub fn rounded(self) -> (r: u32)
        ensures
            r == nearest_up(self.units(), BPM_UNIT as int),
            20 <= r <= 300,
    {
        let units: u64 = self.to_units();
        let whole: u64 = units / BPM_UNIT;
        let rest: u64 = units % BPM_UNIT;
        if rest * 2 < BPM_UNIT {
            whole as u32
        } else {
            (whole + 1) as u32
        }
    }
}

/// Where a tempo of so many units lands when it is moved by whole beats per minute: at the
/// double nearest the sum, or at the end of the range the sum is past.
pub open spec fn nudged_units(units: int, beats: int) -> int {
    let sum = units + beats * BPM_UNIT;
    if sum < MIN_UNITS {
        MIN_UNITS as int
    } else if sum > MAX_UNITS {
        MAX_UNITS as int
    } else {
        to_double(sum, 1)
    }
}

proof fn units_of_ends()
    ensures
        Tempo(MIN_BPM).units() == MIN_UNITS,
        Tempo(MAX_BPM).units() == MAX_UNITS,
{
    assert(MIN_BPM as int / 0x10_0000_0000_0000 == 0x403);
    assert(MAX_BPM as int / 0x10_0000_0000_0000 == 0x407);
}

/// Every tempo is between 20 and 300 beats per minute.
pub proof fn units_in_range(tempo: Tempo)
    requires
        tempo.wf(),
    ensures
        MIN_UNITS <= tempo.units() <= MAX_UNITS,
        0x403 <= tempo.bits() as int / 0x10_0000_0000_0000 <= 0x407,
{
    let field = tempo.0 as int / 0x10_0000_0000_0000;
    let low = tempo.0 as int % 0x10_0000_0000_0000;
    assert(tempo.0 == field * 0x10_0000_0000_0000 + low);
    assert(0x403 <= field <= 0x407);
}

/// Two tempos of the same value are the same tempo.
pub proof fn same_units_same_tempo(a: Tempo, b: Tempo)
    requires
        a.wf(),
        b.wf(),
        a.units() == b.units(),
    ensures
        a == b,
{
    units_in_range(a);
    units_in_range(b);
    let fa = a.0 as int / 0x10_0000_0000_0000;
    let fb = b.0 as int / 0x10_0000_0000_0000;
    let la = a.0 as int % 0x10_0000_0000_0000;
    let lb = b.0 as int % 0x10_0000_0000_0000;
    assert(a.0 == fa * 0x10_0000_0000_0000 + la);
    assert(b.0 == fb * 0x10_0000_0000_0000 + lb);
    assert(0x10_0000_0000_0000 <= la + 0x10_0000_0000_0000 < 0x20_0000_0000_0000);
    assert(0x10_0000_0000_0000 <= lb + 0x10_0000_0000_0000 < 0x20_0000_0000_0000);
    assert(fa == fb);
    if fa == 0x403 {
        assert(la == lb);
    } else if fa == 0x404 {
        assert(la == lb);
    } else if fa == 0x405 {
        assert(la == lb);
    } else if fa == 0x406 {
        assert(la == lb);
    } else {
        assert(la == lb);
    }
}

/// The bits a sum of tempos has to spare, by where it lies.
proof fn units_spacing(units: int)
    requires
        MIN_UNITS <= units <= MAX_UNITS,
    ensures
        pow2(spare_bits(units)) == grain(units),
        spare_bits(units) == (if units < 0x20_0000_0000_0000 {
            0int
        } else if units < 0x40_0000_0000_0000 {
            1
        } else if units < 0x80_0000_0000_0000 {
            2
        } else if units < 0x100_0000_0000_0000 {
            3
        } else {
            4
        }),
{
    reveal_with_fuel(spare_bits, 6);
    lemma2_to64();
}

/// Rounding to a multiple of one of the spacings gives no more than all significant bits of it.
proof fn rounds_to_multiple(sum: int, unit: int)
    requires
        unit == 1 || unit == 2 || unit == 4 || unit == 8 || unit == 16,
        0 <= sum < 0x20_0000_0000_0000 * unit,
    ensures
        0 <= nearest_even(sum, unit) <= 0x20_0000_0000_0000,
{
    if unit == 1 {
        assert(0 <= sum / 1 < 0x20_0000_0000_0000);
    } else if unit == 2 {
        assert(0 <= sum / 2 < 0x20_0000_0000_0000);
    } else if unit == 4 {
        assert(0 <= sum / 4 < 0x20_0000_0000_0000);
    } else if unit == 8 {
        assert(0 <= sum / 8 < 0x20_0000_0000_0000);
    } else {
        assert(0 <= sum / 16 < 0x20_0000_0000_0000);
    }
}

/// The distance between neighbouring doubles around a value in the range of tempos.
spec fn grain(units: int) -> int {
    if units < 0x20_0000_0000_0000 {
        1
    } else if units < 0x40_0000_0000_0000 {
        2
    } else if units < 0x80_0000_0000_0000 {
        4
    } else if units < 0x100_0000_0000_0000 {
        8
    } else {
        16
    }
}

/// A multiple of a spacing, with no more than all significant bits, is on the spacing it has
/// itself.
#[verifier::spinoff_prover]
proof fn multiples_are_spaced(q: int, unit: int, r: int)
    requires
        0 <= q <= 0x20_0000_0000_0000,
        MIN_UNITS <= r <= MAX_UNITS,
        unit == 1 && r == q || unit == 2 && r == 2 * q || unit == 4 && r == 4 * q || unit == 8 && r
            == 8 * q || unit == 16 && r == 16 * q,
    ensures
        r % grain(r) == 0,
{
    if unit == 1 {
        assert(r < 0x20_0000_0000_0000 || r == 0x20_0000_0000_0000);
    } else if unit == 2 {
        lemma_mod_multiples_basic(q, 2);
        assert(r < 0x40_0000_0000_0000 || r == 0x40_0000_0000_0000);
    } else if unit == 4 {
        lemma_mod_multiples_basic(2 * q, 2);
        lemma_mod_multiples_basic(q, 4);
        assert(r < 0x80_0000_0000_0000 || r == 0x80_0000_0000_0000);
    } else if unit == 8 {
        lemma_mod_multiples_basic(4 * q, 2);
        lemma_mod_multiples_basic(2 * q, 4);
        lemma_mod_multiples_basic(q, 8);
        assert(r < 0x100_0000_0000_0000 || r == 0x100_0000_0000_0000);
    } else {
        lemma_mod_multiples_basic(8 * q, 2);
        lemma_mod_multiples_basic(4 * q, 4);
        lemma_mod_multiples_basic(2 * q, 8);
        lemma_mod_multiples_basic(q, 16);
    }
}

proof fn sums_round_in_range(sum: int)
    requires
        MIN_UNITS <= sum <= MAX_UNITS,
    ensures
        MIN_UNITS <= to_double(sum, 1) <= MAX_UNITS,
        to_double(sum, 1) % (pow2(spare_bits(to_double(sum, 1))) as int) == 0,
{
    units_spacing(sum);
    units_spacing(MIN_UNITS as int);
    units_spacing(MAX_UNITS as int);
    rounding_stays_between(sum, MIN_UNITS as int, MAX_UNITS as int);
    let unit = pow2(spare_bits(sum)) as int;
    assert(sum / 1 == sum);
    assert(1 * unit == unit);
    rounds_to_multiple(sum, unit);
    let q = nearest_even(sum, unit);
    let r = to_double(sum, 1);
    assert(r == q * unit);
    scaled_by(q, unit, r);
    multiples_are_spaced(q, unit, r);
    units_spacing(r);
}

proof fn scaled_by(q: int, unit: int, r: int)
    requires
        unit == 1 || unit == 2 || unit == 4 || unit == 8 || unit == 16,
        r == q * unit,
    ensures
        unit == 1 && r == q || unit == 2 && r == 2 * q || unit == 4 && r == 4 * q || unit == 8 && r
            == 8 * q || unit == 16 && r == 16 * q,
{
}

/// A tempo moves by as many beats per minute as it is asked to, to the nearest double, and stays
/// between 20 and 300. A whole number of beats per minute stays one, and comes back to itself when
/// it is moved the other way.
pub proof fn tempos_move_by_whole_beats(units: int, beats: int)
    requires
        MIN_UNITS <= units <= MAX_UNITS,
    ensures
        MIN_UNITS <= nudged_units(units, beats) <= MAX_UNITS,
        ({
            let wanted = units + beats * 0x1_0000_0000_0000;
            &&& wanted < MIN_UNITS ==> nudged_units(units, beats) == 20 * 0x1_0000_0000_0000
            &&& wanted > MAX_UNITS ==> nudged_units(units, beats) == 300 * 0x1_0000_0000_0000
            &&& MIN_UNITS <= wanted <= MAX_UNITS ==> {
                &&& (nudged_units(units, beats) - wanted) * 0x10_0000_0000_0000 <= wanted
                &&& (wanted - nudged_units(units, beats)) * 0x10_0000_0000_0000 <= wanted
                &&& units % 0x1_0000_0000_0000 == 0 ==> nudged_units(units, beats) == wanted
                    && nudged_units(nudged_units(units, beats), -beats) == units
            }
        }),
{
    let wanted = units + beats * 0x1_0000_0000_0000;
    assert(wanted == units + beats * BPM_UNIT);
    if MIN_UNITS <= wanted <= MAX_UNITS {
        sums_round_in_range(wanted);
        assert(wanted / 1 == wanted);
        rounding_is_near(wanted, 1);
        assert(to_double(wanted, 1) * 1 == to_double(wanted, 1));
        if units % 0x1_0000_0000_0000 == 0 {
            assert(wanted % 0x1_0000_0000_0000 == 0) by {
                lemma_mod_multiples_vanish(
                    beats,
                    units,
                    0x1_0000_0000_0000,
                );
                assert(0x1_0000_0000_0000 * beats + units == wanted);
            }
            whole_tempos_are_exact(wanted);
            whole_tempos_are_exact(units);
            assert(wanted + (-beats) * BPM_UNIT == units);
        }
    }
}

/// A whole number of beats per minute is a double.
proof fn whole_tempos_are_exact(units: int)
    requires
        MIN_UNITS <= units <= MAX_UNITS,
        units % 0x1_0000_0000_0000 == 0,
    ensures
        to_double(units, 1) == units,
{
    units_spacing(units);
    assert(units % 1 == 0 && units % 2 == 0 && units % 4 == 0 && units % 8 == 0 && units % 16 == 0);
    rounding_stays_between(units, units, units);
}

/// A time signature.
#[derive(Debug, Clone, Copy, PartialEq, Eq, Hash, Structural)]
pub struct TimeSignature {
    pub(crate) beats_per_bar: u32,
    pub(crate) beat_unit: u32,
}

/// Whether a number is a power of two that fits in 32 bits.
pub open spec fn power_of_two(n: int) -> bool {
    exists|k: nat| k < 32 && n == #[trigger] pow2(k)
}

impl TimeSignature {
    /// Common time.
    pub fn four_four() -> (r: Self)
        ensures
            r.beats() == 4,
            r.unit() == 4,
            r.wf(),
    {
        proof {
            common_units_are_powers();
        }
        TimeSignature { beats_per_bar: 4, beat_unit: 4 }
    }

    /// A bar has a beat, and the beat is a power-of-two note value.
    #[verifier::type_invariant]
    pub open(crate) spec fn wf(self) -> bool {
        self.beats_per_bar > 0 && self.beat_unit > 0 && power_of_two(self.beat_unit as int)
    }

    /// Beats in one bar.
    pub open(crate) spec fn beats(self) -> int {
        self.beats_per_bar as int
    }

    /// Note value that gets the beat.
    pub open(crate) spec fn unit(self) -> int {
        self.beat_unit as int
    }

    /// The signature of so many beats of a note value.
    pub open(crate) spec fn of(beats: int, unit: int) -> Self {
        TimeSignature { beats_per_bar: beats as u32, beat_unit: unit as u32 }
    }

    /// # Errors
    ///
    /// [`TimeError::InvalidTimeSignature`] if `beats_per_bar` is zero, or `beat_unit`
    /// is zero or not a power of two.
    pub fn new(beats_per_bar: u32, beat_unit: u32) -> (r: Result<Self, TimeError>)
        ensures
            r is Ok <==> beats_per_bar > 0 && power_of_two(beat_unit as int),
            r is Ok ==> r->Ok_0.beats() == beats_per_bar && r->Ok_0.unit() == beat_unit
                && r->Ok_0.wf() && r->Ok_0 == TimeSignature::of(
                beats_per_bar as int,
                beat_unit as int,
            ),
            r is Err ==> r->Err_0 == TimeError::InvalidTimeSignature,
    {
        if beats_per_bar == 0 || !is_power_of_two(beat_unit) {
            return Err(TimeError::InvalidTimeSignature);
        }
        proof {
            power_is_positive(beat_unit as int);
        }
        Ok(Self { beats_per_bar, beat_unit })
    }

    /// Beats in one bar. The numerator.
    pub fn beats_per_bar(self) -> (r: u32)
        ensures
            r == self.beats(),
            r > 0,
            self.wf(),
    {
        proof {
            use_type_invariant(&self);
        }
        self.beats_per_bar
    }

    /// Note value that gets the beat. The denominator.
    pub fn beat_unit(self) -> (r: u32)
        ensures
            r == self.unit(),
            r > 0,
            self.wf(),
    {
        proof {
            use_type_invariant(&self);
        }
        self.beat_unit
    }
}

impl Default for TimeSignature {
    fn default() -> (r: Self)
        ensures
            r.beats() == 4,
            r.unit() == 4,
            r.wf(),
    {
        Self::four_four()
    }
}

/// The note values a beat is commonly given are powers of two.
pub proof fn common_units_are_powers()
    ensures
        power_of_two(1),
        power_of_two(2),
        power_of_two(4),
        power_of_two(8),
        power_of_two(16),
{
    lemma2_to64();
    assert(1 == pow2(0));
    assert(2 == pow2(1));
    assert(4 == pow2(2));
    assert(8 == pow2(3));
    assert(16 == pow2(4));
}

proof fn power_is_positive(n: int)
    requires
        power_of_two(n),
    ensures
        n > 0,
{
    let k = choose|k: nat| k < 32 && n == #[trigger] pow2(k);
    lemma_pow2_pos(k);
}

/// Whether a number is a power of two.
fn is_power_of_two(n: u32) -> (r: bool)
    ensures
        r == power_of_two(n as int),
{
    let mut power: u64 = 1;
    let ghost mut k: nat = 0;
    proof {
        lemma2_to64();
    }
    while power < n as u64
        invariant
            power == pow2(k),
            k < 33,
            k > 0 ==> pow2((k - 1) as nat) < n,
            power < 0x2_0000_0000,
            pow2(31) == 0x8000_0000,
            pow2(32) == 0x1_0000_0000,
        decreases 33 - k,
    {
        proof {
            lemma_pow2_unfold(k + 1);
            lemma_pow2_pos(k);
            if k >= 32 {
                if k > 32 {
                    lemma_pow2_strictly_increases(32, k);
                }
            }
        }
        power = power * 2;
        proof {
            k = k + 1;
            if k > 32 {
                lemma_pow2_strictly_increases(32, k);
            }
        }
    }
    proof {
        if power == n {
            if k >= 32 {
                if k > 32 {
                    lemma_pow2_strictly_increases(32, k);
                }
            }
            assert(n as int == pow2(k));
        } else if power_of_two(n as int) {
            let j = choose|j: nat| j < 32 && n as int == #[trigger] pow2(j);
            if j < k {
                if j + 1 < k {
                    lemma_pow2_strictly_increases(j, (k - 1) as nat);
                }
            } else if j > k {
                lemma_pow2_strictly_increases(k, j);
            }
        }
    }
    power == n as u64
}

} // verus!
