//! The bar grid: where bars, beats, clicks and clock ticks fall, and the quantisation rules.

use vstd::arithmetic::div_mod::*;
use vstd::arithmetic::mul::*;
use vstd::prelude::*;

use crate::double::{
    nearest_up, round_to_double, rounding_is_close, rounding_is_near, to_double,
};
use crate::time::{
    Frames, SampleRate, Tempo, TimeError, TimeSignature, CLOCK_TICKS_PER_QUARTER,
    MAX_UNITS, MIN_UNITS,
};

verus! {

/// `60 * 2^108`, a minute to divide by a tempo in units of `2^-48` for units of `2^-60` seconds.
pub const MINUTE: u128 = 0x3C_000_0000_0000_0000_0000_0000_0000;

/// `2^58`, a quarter of a second in units of `2^-60`.
pub const QUARTER_UNIT: u128 = 0x400_0000_0000_0000;

/// Seconds in one beat at a tempo of so many units, in units of `2^-60`.
pub open spec fn beat_units(tempo_units: int) -> int {
    to_double(MINUTE as int, tempo_units)
}

/// The length of a bar in frames, as double precision arithmetic gives it: the length of a
/// beat, times the beats in a bar, times the sample rate, each rounded to a double, and then
/// rounded to a whole number. A beat is a quarter note scaled by the power of two
/// `4 / beat_unit`, which costs no precision.
pub open spec fn bar_length(rate: int, tempo_units: int, beats: int, unit: int) -> int {
    let bar = to_double(beat_units(tempo_units) * beats, 1);
    nearest_up(to_double(bar * rate, 1), unit * QUARTER_UNIT)
}

/// Maps frame positions to musical time. `Copy` and stateless.
#[derive(Debug, Clone, Copy, PartialEq, Eq, Structural)]
pub struct BarGrid {
    pub(crate) sample_rate: SampleRate,
    pub(crate) tempo: Tempo,
    pub(crate) time_signature: TimeSignature,
    pub(crate) frames_per_bar: u64,
}

/// How far into a bar of `bar` frames the cut numbered `cut` of `cuts` equal ones is.
pub open spec fn cut_offset(bar: int, cut: int, cuts: int) -> int {
    bar * cut / cuts
}

/// The last of `cuts` equal cuts of a bar at or before `into`.
pub open spec fn cut_at(bar: int, into: int, cuts: int) -> int {
    ((into + 1) * cuts - 1) / bar
}

/// The cut found is the last one at or before the position, and there is one more after it
/// or the bar ends.
pub proof fn cut_brackets(bar: int, into: int, cuts: int)
    requires
        0 <= into < bar,
        0 < cuts,
    ensures
        0 <= cut_at(bar, into, cuts) < cuts,
        cut_offset(bar, cut_at(bar, into, cuts), cuts) <= into,
        into < cut_offset(bar, cut_at(bar, into, cuts) + 1, cuts),
        cut_offset(bar, cuts, cuts) == bar,
        cut_offset(bar, 0, cuts) == 0,
{
    let cut = cut_at(bar, into, cuts);
    let top = (into + 1) * cuts - 1;
    assert(cuts - 1 <= top) by (nonlinear_arith)
        requires
            top == (into + 1) * cuts - 1,
            into >= 0,
            cuts > 0,
    ;
    lemma_fundamental_div_mod(top, bar);
    lemma_mod_bound(top, bar);
    assert(top == bar * cut + top % bar);
    assert(top < bar * cuts) by (nonlinear_arith)
        requires
            top == (into + 1) * cuts - 1,
            into + 1 <= bar,
            cuts > 0,
    ;
    lemma_div_pos_is_pos(top, bar);
    assert(cut < cuts) by (nonlinear_arith)
        requires
            bar * cut <= top,
            top < bar * cuts,
            bar > 0,
    ;
    // The cut itself.
    let at = bar * cut / cuts;
    lemma_fundamental_div_mod(bar * cut, cuts);
    lemma_mod_bound(bar * cut, cuts);
    assert(at <= into) by (nonlinear_arith)
        requires
            bar * cut == cuts * at + (bar * cut) % cuts,
            (bar * cut) % cuts >= 0,
            bar * cut <= top,
            top == (into + 1) * cuts - 1,
            cuts > 0,
    ;
    // The one after it.
    let next = bar * (cut + 1) / cuts;
    lemma_fundamental_div_mod(bar * (cut + 1), cuts);
    lemma_mod_bound(bar * (cut + 1), cuts);
    assert(bar * (cut + 1) == bar * cut + bar) by (nonlinear_arith);
    assert(into < next) by (nonlinear_arith)
        requires
            bar * (cut + 1) == cuts * next + (bar * (cut + 1)) % cuts,
            (bar * (cut + 1)) % cuts < cuts,
            bar * (cut + 1) > top,
            top == (into + 1) * cuts - 1,
            cuts > 0,
    ;
    lemma_mul_is_commutative(bar, cuts);
    lemma_div_multiples_vanish(bar, cuts);
    lemma_div_basics_2(cuts);
}

proof fn lemma_div_basics_2(d: int)
    requires
        d > 0,
    ensures
        0int / d == 0,
{
    lemma_div_basics(d);
}

/// Cuts never run backwards.
pub proof fn cuts_climb(bar: int, a: int, b: int, cuts: int)
    requires
        0 <= bar,
        a <= b,
        0 < cuts,
    ensures
        cut_offset(bar, a, cuts) <= cut_offset(bar, b, cuts),
{
    assert(bar * a <= bar * b) by (nonlinear_arith)
        requires
            0 <= bar,
            a <= b,
    ;
    lemma_div_is_ordered(bar * a, bar * b, cuts);
}

impl BarGrid {
    /// The bar is a whole number of frames, the one its musical time gives.
    #[verifier::type_invariant]
    pub open(crate) spec fn wf(self) -> bool {
        &&& self.sample_rate.wf()
        &&& self.tempo.wf()
        &&& self.time_signature.wf()
        &&& 1 <= self.frames_per_bar <= u32::MAX
        &&& self.frames_per_bar == bar_length(
            self.sample_rate.rate(),
            self.tempo.units(),
            self.time_signature.beats(),
            self.time_signature.unit(),
        )
    }

    /// Length of one bar in frames.
    pub open(crate) spec fn bar(self) -> int {
        self.frames_per_bar as int
    }

    /// Beats in one bar.
    pub open(crate) spec fn beats(self) -> int {
        self.time_signature.beats()
    }

    /// The sample rate this grid was built for.
    pub open(crate) spec fn rate_at(self) -> SampleRate {
        self.sample_rate
    }

    /// The tempo this grid was built for.
    pub open(crate) spec fn tempo_at(self) -> Tempo {
        self.tempo
    }

    /// The time signature this grid was built for.
    pub open(crate) spec fn signature_at(self) -> TimeSignature {
        self.time_signature
    }

    /// The bar line at or before a position.
    pub open spec fn line_before(self, pos: int) -> int {
        pos - pos % self.bar()
    }

    /// The bar line at or after a position.
    pub open spec fn line_after(self, pos: int) -> int {
        if pos % self.bar() == 0 {
            pos
        } else {
            pos - pos % self.bar() + self.bar()
        }
    }

    /// Whether a position is on one of the equal cuts of its bar.
    pub open spec fn is_cut(self, pos: int, cuts: int) -> bool {
        cut_offset(self.bar(), cut_at(self.bar(), pos % self.bar(), cuts), cuts) == pos % self.bar()
    }

    /// The next of the equal cuts of a bar strictly after a position.
    pub open spec fn cut_after(self, pos: int, cuts: int) -> int {
        self.line_before(pos) + cut_offset(
            self.bar(),
            cut_at(self.bar(), pos % self.bar(), cuts) + 1,
            cuts,
        )
    }

    /// MIDI clock ticks passed by a position, before they are held to 64 bits.
    pub open spec fn ticks(self, pos: int) -> int {
        pos * (CLOCK_TICKS_PER_QUARTER * (self.beats() * 4)) / (self.signature_at().unit()
            * self.bar())
    }

    /// The position that sits at the same musical place under another grid.
    pub open spec fn rebased(self, pos: int, target: BarGrid) -> int {
        (pos / self.bar()) * target.bar() + (pos % self.bar()) * target.bar() / self.bar()
    }

    /// Where a recording ends: at the bar line just passed, but a bar after it began at least.
    pub open spec fn record_end(self, start: int, pressed_at: int) -> int {
        if self.line_before(pressed_at) < start + self.bar() {
            start + self.bar()
        } else {
            self.line_before(pressed_at)
        }
    }

    /// Builds a grid, rounding the bar length to a whole number of frames.
    ///
    /// # Errors
    ///
    /// [`TimeError::BarLengthUnrepresentable`] if the resulting bar is shorter than one
    /// frame or longer than `u32::MAX` frames.
    pub fn new(
        sample_rate: SampleRate,
        tempo: Tempo,
        time_signature: TimeSignature,
    ) -> (r: Result<Self, TimeError>)
        ensures
            ({
                let length = bar_length(
                    sample_rate.rate(),
                    tempo.units(),
                    time_signature.beats(),
                    time_signature.unit(),
                );
                &&& r is Ok <==> 1 <= length <= u32::MAX
                &&& r is Ok ==> r->Ok_0.bar() == length && r->Ok_0.rate_at() == sample_rate
                    && r->Ok_0.tempo_at() == tempo && r->Ok_0.signature_at() == time_signature
                    && r->Ok_0.wf()
                &&& r is Err ==> r->Err_0 == TimeError::BarLengthUnrepresentable
            }),
    {
        let hz: u32 = sample_rate.hz();
        let beats: u32 = time_signature.beats_per_bar();
        let unit: u32 = time_signature.beat_unit();
        let units: u64 = tempo.to_units();
        proof {
            use_type_invariant(&tempo);
            beat_bounds(units as int);
        }
        let beat: u128 = round_to_double(MINUTE, units as u128);
        proof {
            product_bounds(beat as int, beats as int, 0x3000_0000_0000_1000, 0x1_0000_0000);
            rounding_is_close(beat * beats, 1);
        }
        let bar: u128 = round_to_double(beat * beats as u128, 1);
        proof {
            product_bounds(bar as int, hz as int, 0x3000_0000_0001_0000_0000_0000, 0x1_0000_0000);
            rounding_is_close(bar * hz, 1);
        }
        let frames: u128 = round_to_double(bar * hz as u128, 1);
        let divisor: u128 = unit as u128 * QUARTER_UNIT;
        let whole: u128 = frames / divisor;
        let rest: u128 = frames % divisor;
        proof {
            lemma_mod_bound(frames as int, divisor as int);
            assert(whole <= frames) by {
                lemma_div_is_ordered_by_denominator(frames as int, 1, divisor as int);
                lemma_div_basics(frames as int);
            }
        }
        let length: u128 = if rest * 2 < divisor {
            whole
        } else {
            whole + 1
        };
        if length < 1 || length > u32::MAX as u128 {
            return Err(TimeError::BarLengthUnrepresentable);
        }
        Ok(Self { sample_rate, tempo, time_signature, frames_per_bar: length as u64 })
    }

    /// The sample rate this grid was built for.
    pub fn sample_rate(self) -> (r: SampleRate)
        ensures
            r == self.rate_at(),
    {
        self.sample_rate
    }

    /// The tempo this grid was built for.
    pub fn tempo(self) -> (r: Tempo)
        ensures
            r == self.tempo_at(),
    {
        self.tempo
    }

    /// The time signature this grid was built for.
    pub fn time_signature(self) -> (r: TimeSignature)
        ensures
            r == self.signature_at(),
    {
        self.time_signature
    }

    /// Length of one bar.
    pub fn frames_per_bar(self) -> (r: Frames)
        ensures
            r.0 == self.bar(),
            1 <= r.0 <= u32::MAX,
            self.wf(),
    {
        proof {
            use_type_invariant(&self);
        }
        Frames(self.frames_per_bar)
    }

    /// Length of `bars` bars.
    pub fn bars(self, bars: u32) -> (r: Frames)
        ensures
            r.0 == self.bar() * bars,
    {
        proof {
            use_type_invariant(&self);
            product_fits(self.bar(), bars as int);
        }
        Frames(self.frames_per_bar * bars as u64)
    }

    /// Which bar `pos` falls in, counting from zero at the origin.
    pub fn bar_of(self, pos: Frames) -> (r: u64)
        ensures
            r == pos.0 as int / self.bar(),
    {
        proof {
            use_type_invariant(&self);
        }
        pos.0 / self.frames_per_bar
    }

    /// Where `bar` starts.
    pub fn bar_start(self, bar: u64) -> (r: Frames)
        requires
            bar * self.bar() <= u64::MAX,
        ensures
            r.0 == bar * self.bar(),
    {
        Frames(bar * self.frames_per_bar)
    }

    /// The bar boundary at or after `pos`.
    pub fn next_boundary(self, pos: Frames) -> (r: Frames)
        requires
            self.line_after(pos.0 as int) <= u64::MAX,
        ensures
            r.0 == self.line_after(pos.0 as int),
    {
        proof {
            use_type_invariant(&self);
            lemma_mod_bound(pos.0 as int, self.bar());
            lemma_mod_decreases(pos.0 as nat, self.bar() as nat);
        }
        let into_bar: u64 = pos.0 % self.frames_per_bar;
        if into_bar == 0 {
            pos
        } else {
            Frames(pos.0 - into_bar + self.frames_per_bar)
        }
    }

    /// The bar boundary at or before `pos`.
    pub fn previous_boundary(self, pos: Frames) -> (r: Frames)
        ensures
            r.0 == self.line_before(pos.0 as int),
    {
        proof {
            use_type_invariant(&self);
            lemma_mod_decreases(pos.0 as nat, self.bar() as nat);
        }
        Frames(pos.0 - pos.0 % self.frames_per_bar)
    }

    /// Offset of beat `beat` from the start of its bar.
    pub fn beat_offset(self, beat: u32) -> (r: Frames)
        ensures
            r.0 == cut_offset(self.bar(), beat as int, self.beats()),
    {
        proof {
            use_type_invariant(&self);
            product_fits(self.bar(), beat as int);
        }
        let beats: u64 = self.time_signature.beats_per_bar() as u64;
        Frames(self.frames_per_bar * beat as u64 / beats)
    }

    /// Which of `cuts` equal cuts of its bar `pos` falls in.
    fn cut_of(self, pos: Frames, cuts: u32) -> (r: u32)
        requires
            cuts > 0,
        ensures
            r == cut_at(self.bar(), pos.0 as int % self.bar(), cuts as int),
            r < cuts,
    {
        proof {
            use_type_invariant(&self);
            lemma_mod_bound(pos.0 as int, self.bar());
        }
        let into_bar: u64 = pos.0 % self.frames_per_bar;
        proof {
            cut_brackets(self.bar(), into_bar as int, cuts as int);
            product_fits(into_bar + 1, cuts as int);
            assert((into_bar + 1) * cuts >= 1) by (nonlinear_arith)
                requires
                    into_bar >= 0,
                    cuts >= 1,
            ;
        }
        // Exact inverse of the offset. Dividing `into_bar * cuts` directly would floor a
        // second time and land a frame short of the reported cut.
        let cut: u64 = ((into_bar + 1) * cuts as u64 - 1) / self.frames_per_bar;
        cut as u32
    }

    /// The bar and beat index `pos` falls in.
    pub fn beat_of(self, pos: Frames) -> (r: (u64, u32))
        ensures
            r.0 == pos.0 as int / self.bar(),
            r.1 == cut_at(self.bar(), pos.0 as int % self.bar(), self.beats()),
            r.1 < self.beats(),
    {
        (self.bar_of(pos), self.cut_of(pos, self.time_signature.beats_per_bar()))
    }

    /// The next beat boundary strictly after `pos`.
    pub fn next_beat_boundary(self, pos: Frames) -> (r: Frames)
        requires
            self.cut_after(pos.0 as int, self.beats()) <= u64::MAX,
        ensures
            r.0 == self.cut_after(pos.0 as int, self.beats()),
    {
        self.next_slice(pos, self.time_signature.beats_per_bar())
    }

    /// The next of `slices` equal parts of the bar to start strictly after `pos`.
    pub fn next_slice(self, pos: Frames, slices: u32) -> (r: Frames)
        requires
            slices > 0,
            self.cut_after(pos.0 as int, slices as int) <= u64::MAX,
        ensures
            r.0 == self.cut_after(pos.0 as int, slices as int),
    {
        proof {
            use_type_invariant(&self);
            lemma_mod_bound(pos.0 as int, self.bar());
            lemma_mod_decreases(pos.0 as nat, self.bar() as nat);
            cut_brackets(self.bar(), pos.0 as int % self.bar(), slices as int);
        }
        let cut: u32 = self.cut_of(pos, slices);
        proof {
            product_fits(self.bar(), cut + 1);
        }
        let offset: u64 = self.frames_per_bar * (cut as u64 + 1) / slices as u64;
        Frames(pos.0 - pos.0 % self.frames_per_bar + offset)
    }

    /// Whether one of `slices` equal parts of the bar starts exactly at `pos`.
    pub fn on_slice(self, pos: Frames, slices: u32) -> (r: bool)
        requires
            slices > 0,
        ensures
            r == self.is_cut(pos.0 as int, slices as int),
    {
        let cut: u32 = self.cut_of(pos, slices);
        proof {
            use_type_invariant(&self);
            product_fits(self.bar(), cut as int);
        }
        self.frames_per_bar * cut as u64 / slices as u64 == pos.0 % self.frames_per_bar
    }

    /// How many MIDI clock ticks have passed by `pos`.
    ///
    /// Ticks are counted per quarter note rather than per beat, so a bar of 7/8 carries
    /// half as many as a bar of 7/4.
    pub fn clock_ticks_at(self, pos: Frames) -> (r: u64)
        ensures
            r == (if self.ticks(pos.0 as int) <= u64::MAX {
                self.ticks(pos.0 as int)
            } else {
                u64::MAX as int
            }),
    {
        let beats: u32 = self.time_signature.beats_per_bar();
        let unit: u32 = self.time_signature.beat_unit();
        proof {
            use_type_invariant(&self);
        }
        let per_bar: u128 = CLOCK_TICKS_PER_QUARTER as u128 * (beats as u128 * 4);
        proof {
            product_bounds(pos.0 as int, per_bar as int, 0x1_0000_0000_0000_0000, 0x80_0000_0000);
            product_fits(unit as int, self.bar());
            assert(unit * self.bar() > 0) by (nonlinear_arith)
                requires
                    unit > 0,
                    self.bar() > 0,
            ;
        }
        let divisor: u128 = unit as u128 * self.frames_per_bar as u128;
        let ticks: u128 = pos.0 as u128 * per_bar / divisor;
        if ticks <= u64::MAX as u128 {
            ticks as u64
        } else {
            u64::MAX
        }
    }

    /// The position under `target` that sits at the same musical place as `position`
    /// does under `self`.
    ///
    /// A tempo change rebuilds the grid, so the same frame count lands on a different
    /// bar and beat. Moving the transport with the grid keeps the bar number and the
    /// fraction through it, so the next beat arrives one new-tempo interval later
    /// instead of the click jumping.
    pub fn rebase_onto(self, position: Frames, target: Self) -> (r: Frames)
        requires
            self.rebased(position.0 as int, target) <= u64::MAX,
        ensures
            r.0 == self.rebased(position.0 as int, target),
    {
        let bar: u64 = self.bar_of(position);
        proof {
            use_type_invariant(&self);
            use_type_invariant(&target);
            lemma_mod_bound(position.0 as int, self.bar());
            product_fits(position.0 as int % self.bar(), target.bar());
            lemma_div_pos_is_pos((position.0 as int % self.bar()) * target.bar(), self.bar());
            assert(0 <= bar * target.bar()) by (nonlinear_arith)
                requires
                    bar >= 0,
                    target.bar() > 0,
            ;
        }
        let into_bar: u64 = position.0 % self.frames_per_bar;
        let scaled: u64 = into_bar * target.frames_per_bar / self.frames_per_bar;
        Frames(target.bar_start(bar).0 + scaled)
    }

    /// Where a recording begun at `start` ends, given stop was pressed at `pressed_at`.
    ///
    /// Rounds back to the bar line that just passed, so a take is whatever whole bars
    /// were finished before the press. A bar in progress is discarded rather than
    /// completed. Press after the bar you want, not during it.
    ///
    /// Result is at least one bar. `start` must be on a boundary.
    pub fn quantize_record_end(self, start: Frames, pressed_at: Frames) -> (r: Frames)
        requires
            start.0 + self.bar() <= u64::MAX,
        ensures
            r.0 == self.record_end(start.0 as int, pressed_at.0 as int),
    {
        let end: Frames = self.previous_boundary(pressed_at);
        let min_end: Frames = Frames(start.0 + self.frames_per_bar);
        if end.0 < min_end.0 {
            min_end
        } else {
            end
        }
    }
}

impl BarGrid {
    /// Whether the position under `target` that sits at the same musical place as `position`
    /// can be counted.
    pub fn can_rebase_onto(self, position: Frames, target: Self) -> (r: bool)
        ensures
            r == (self.rebased(position.0 as int, target) <= u64::MAX),
    {
        let bar: u64 = self.bar_of(position);
        proof {
            use_type_invariant(&self);
            use_type_invariant(&target);
            lemma_mod_bound(position.0 as int, self.bar());
            product_fits(position.0 as int % self.bar(), target.bar());
            lemma_div_pos_is_pos((position.0 as int % self.bar()) * target.bar(), self.bar());
            product_bounds(bar as int, target.bar(), 0x1_0000_0000_0000_0000, 0x1_0000_0000);
            assert((position.0 as int % self.bar()) * target.bar() / self.bar()
                <= 0xffff_fffe_0000_0001) by {
                lemma_div_is_ordered_by_denominator(
                    (position.0 as int % self.bar()) * target.bar(),
                    1,
                    self.bar(),
                );
            }
        }
        let into_bar: u64 = position.0 % self.frames_per_bar;
        let scaled: u64 = into_bar * target.frames_per_bar / self.frames_per_bar;
        let moved: u128 = bar as u128 * target.frames_per_bar as u128 + scaled as u128;
        moved <= u64::MAX as u128
    }

    /// Whether the bar boundary at or after `pos` can be counted.
    pub fn has_next_boundary(self, pos: Frames) -> (r: bool)
        ensures
            r == (self.line_after(pos.0 as int) <= u64::MAX),
    {
        proof {
            use_type_invariant(&self);
            lemma_mod_bound(pos.0 as int, self.bar());
            lemma_mod_decreases(pos.0 as nat, self.bar() as nat);
        }
        let into_bar: u64 = pos.0 % self.frames_per_bar;
        into_bar == 0 || pos.0 - into_bar <= u64::MAX - self.frames_per_bar
    }
}

/// Two grids of the same musical time are the same grid.
pub proof fn same_time_same_grid(a: BarGrid, b: BarGrid)
    requires
        a.wf(),
        b.wf(),
        a.rate_at() == b.rate_at(),
        a.tempo_at() == b.tempo_at(),
        a.signature_at() == b.signature_at(),
    ensures
        a == b,
{
}

proof fn product_fits(a: int, b: int)
    requires
        0 <= a <= u32::MAX,
        0 <= b <= u32::MAX,
    ensures
        0 <= a * b <= 0xffff_fffe_0000_0001,
        a * b == b * a,
{
    assert(0 <= a * b <= 0xffff_ffff * 0xffff_ffff) by (nonlinear_arith)
        requires
            0 <= a <= 0xffff_ffff,
            0 <= b <= 0xffff_ffff,
    ;
    assert(a * b == b * a) by (nonlinear_arith);
}

/// A product of a value below `top` and one below `most`, at least the value itself.
proof fn product_bounds(value: int, factor: int, top: int, most: int)
    requires
        0 <= value < top,
        1 <= factor < most,
    ensures
        value <= value * factor < top * most,
        value * factor / 1 == value * factor,
{
    assert(value <= value * factor < top * most) by (nonlinear_arith)
        requires
            0 <= value < top,
            1 <= factor < most,
    ;
}

/// A beat lasts between a fifth of a second and three seconds.
proof fn beat_bounds(units: int)
    requires
        MIN_UNITS <= units <= MAX_UNITS,
    ensures
        MINUTE as int / units >= 0x10_0000_0000_0000,
        0x10_0000_0000_0000 <= beat_units(units) < 0x3000_0000_0000_1000,
{
    lemma_div_is_ordered_by_denominator(MINUTE as int, units, MAX_UNITS as int);
    lemma_div_is_ordered_by_denominator(MINUTE as int, MIN_UNITS as int, units);
    assert(MINUTE as int / MAX_UNITS as int >= 0x10_0000_0000_0000);
    assert(MINUTE as int / MIN_UNITS as int == 0x3000_0000_0000_0000);
    rounding_is_close(MINUTE as int, units);
}

/// A bar is as long as the tempo really makes it, rounded to a whole frame: it is off by no more
/// than half a frame, and next to nothing for rounding along the way, one part in `2^48` of the
/// bar and a frame. The real length is `MINUTE * beats * rate` over
/// `units * unit * QUARTER_UNIT` frames.
pub proof fn bars_are_within_half_a_frame(rate: int, units: int, beats: int, unit: int)
    requires
        MIN_UNITS <= units <= MAX_UNITS,
        0 < rate,
        0 < beats,
        0 < unit,
    ensures
        ({
            let length = bar_length(rate, units, beats, unit);
            let frame = units * (unit * QUARTER_UNIT);
            let off = length * frame - MINUTE * (beats * rate);
            &&& 0 <= length
            &&& -(frame * (0x8000_0000_0000 + length + 1)) <= 2 * off * 0x8000_0000_0000 <= frame * (
            0x8000_0000_0000 + length + 1)
        }),
{
    let one: int = 0x10_0000_0000_0000;
    let minute = MINUTE as int;
    let beat = beat_units(units);
    beat_bounds(units);
    rounding_is_near(minute, units);
    let exact_bar = beat * beats;
    assert(exact_bar >= one) by (nonlinear_arith)
        requires
            exact_bar == beat * beats,
            beat >= one,
            beats >= 1,
            one == 0x10_0000_0000_0000,
    ;
    assert(exact_bar / 1 == exact_bar);
    rounding_is_near(exact_bar, 1);
    rounding_is_close(exact_bar, 1);
    let bar = to_double(exact_bar, 1);
    let exact_frames = bar * rate;
    assert(exact_frames >= one) by (nonlinear_arith)
        requires
            exact_frames == bar * rate,
            bar >= one,
            rate >= 1,
            one == 0x10_0000_0000_0000,
    ;
    assert(exact_frames / 1 == exact_frames);
    rounding_is_near(exact_frames, 1);
    rounding_is_close(exact_frames, 1);
    let frames = to_double(exact_frames, 1);
    let size = unit * QUARTER_UNIT as int;
    assert(size > 0) by (nonlinear_arith)
        requires
            unit > 0,
            size == unit * 0x400_0000_0000_0000,
    ;
    let length = nearest_up(frames, size);
    lemma_fundamental_div_mod(frames, size);
    lemma_mod_bound(frames, size);
    let whole = frames / size;
    assert(-size <= 2 * (length * size - frames) <= size) by (nonlinear_arith)
        requires
            frames == size * whole + frames % size,
            0 <= frames % size < size,
            length == (if 2 * (frames % size) < size {
                whole
            } else {
                whole + 1
            }),
    ;
    lemma_div_pos_is_pos(frames, size);
    roundings_add_up(minute, units, beat, beats, bar, rate, frames, size, length);
}

/// What three roundings and a last one to a whole add up to.
proof fn roundings_add_up(
    minute: int,
    units: int,
    beat: int,
    beats: int,
    bar: int,
    rate: int,
    frames: int,
    size: int,
    length: int,
)
    requires
        0 < minute,
        0 < units,
        0 < beat,
        0 < beats,
        0 < bar,
        0 < rate,
        0 < frames,
        0 < size,
        0 <= length,
        -minute <= (beat * units - minute) * 0x10_0000_0000_0000 <= minute,
        -(beat * beats) <= (bar - beat * beats) * 0x10_0000_0000_0000 <= beat * beats,
        -(bar * rate) <= (frames - bar * rate) * 0x10_0000_0000_0000 <= bar * rate,
        -size <= 2 * (length * size - frames) <= size,
    ensures
        ({
            let frame = units * size;
            let off = length * frame - minute * (beats * rate);
            -(frame * (0x8000_0000_0000 + length + 1)) <= 2 * off * 0x8000_0000_0000 <= frame * (
            0x8000_0000_0000 + length + 1)
        }),
{
    let one: int = 0x10_0000_0000_0000;
    let a = length * size - frames;
    let b = frames - bar * rate;
    let c = bar - beat * beats;
    let d = beat * units - minute;
    let ur = units * rate;
    let br = beats * rate;
    let uf = units * frames;
    let us = units * size;
    // Each rounded value is at least half of what it was rounded from.
    assert(bar * rate <= 2 * frames);
    assert(beat * beats <= 2 * bar);
    assert(minute <= 2 * (beat * units));
    assert(-us <= 2 * (units * a) <= us) by (nonlinear_arith)
        requires
            -size <= 2 * a <= size,
            us == units * size,
            units > 0,
    ;
    let p = units * (bar * rate);
    assert(0 <= p <= 2 * uf) by (nonlinear_arith)
        requires
            p == units * (bar * rate),
            bar * rate <= 2 * frames,
            uf == units * frames,
            units > 0,
            bar > 0,
            rate > 0,
    ;
    assert(-p <= one * (units * b) <= p) by (nonlinear_arith)
        requires
            -(bar * rate) <= b * one <= bar * rate,
            p == units * (bar * rate),
            units > 0,
    ;
    let q = ur * (beat * beats);
    assert(0 <= q <= 2 * p) by (nonlinear_arith)
        requires
            q == ur * (beat * beats),
            beat * beats <= 2 * bar,
            ur == units * rate,
            p == units * (bar * rate),
            units > 0,
            rate > 0,
            beat > 0,
            beats > 0,
    ;
    assert(ur > 0) by (nonlinear_arith)
        requires
            ur == units * rate,
            units > 0,
            rate > 0,
    ;
    assert(-q <= one * (ur * c) <= q) by (nonlinear_arith)
        requires
            -(beat * beats) <= c * one <= beat * beats,
            q == ur * (beat * beats),
            ur > 0,
    ;
    let r = br * minute;
    assert(br > 0) by (nonlinear_arith)
        requires
            br == beats * rate,
            beats > 0,
            rate > 0,
    ;
    assert(br * (beat * units) == q) by (nonlinear_arith)
        requires
            br == beats * rate,
            q == ur * (beat * beats),
            ur == units * rate,
    ;
    assert(0 <= r <= 2 * q) by (nonlinear_arith)
        requires
            r == br * minute,
            minute <= 2 * (beat * units),
            br * (beat * units) == q,
            br > 0,
            minute > 0,
    ;
    assert(-r <= one * (br * d) <= r) by (nonlinear_arith)
        requires
            -minute <= d * one <= minute,
            r == br * minute,
            br > 0,
    ;
    // The error of the whole is the sum of the parts.
    assert(units * a == length * us - uf) by (nonlinear_arith)
        requires
            a == length * size - frames,
            us == units * size,
            uf == units * frames,
    ;
    assert(units * b == uf - p) by (nonlinear_arith)
        requires
            b == frames - bar * rate,
            uf == units * frames,
            p == units * (bar * rate),
    ;
    assert(ur * bar == p) by (nonlinear_arith)
        requires
            ur == units * rate,
            p == units * (bar * rate),
    ;
    assert(ur * c == ur * bar - q) by (nonlinear_arith)
        requires
            c == bar - beat * beats,
            q == ur * (beat * beats),
    ;
    assert(br * d == br * (beat * units) - r) by (nonlinear_arith)
        requires
            d == beat * units - minute,
            r == br * minute,
    ;
    assert(minute * br == r) by (nonlinear_arith)
        requires
            r == br * minute,
    ;
    assert(length * us - minute * br == units * a + units * b + ur * c + br * d);
    // All of it is far less than half a frame.
    assert(2 * uf <= 2 * (length * us) + us) by (nonlinear_arith)
        requires
            -size <= 2 * (length * size - frames),
            uf == units * frames,
            us == units * size,
            units > 0,
    ;
    assert(us > 0) by (nonlinear_arith)
        requires
            us == units * size,
            units > 0,
            size > 0,
    ;
    let lu = length * us;
    assert(lu >= 0) by (nonlinear_arith)
        requires
            lu == length * us,
            length >= 0,
            us > 0,
    ;
    assert(us * (0x8000_0000_0000 + length + 1) == 0x8000_0000_0000 * us + lu + us)
        by (nonlinear_arith)
        requires
            lu == length * us,
    ;
    assert(length * (units * size) - minute * (beats * rate) == length * us - minute * br);
}

/// A bar starts in itself, and the frame before it belongs to the bar before: bars do not
/// drift however far along they are.
pub proof fn bars_do_not_drift(grid: BarGrid, bar: int)
    requires
        grid.wf(),
        0 <= bar,
    ensures
        (bar * grid.bar()) / grid.bar() == bar,
        bar > 0 ==> (bar * grid.bar() - 1) / grid.bar() == bar - 1,
{
    lemma_div_by_multiple(bar, grid.bar());
    if bar > 0 {
        lemma_div_multiples_vanish_fancy(bar - 1, grid.bar() - 1, grid.bar());
        assert(bar * grid.bar() - 1 == grid.bar() * (bar - 1) + (grid.bar() - 1))
            by (nonlinear_arith);
    }
}

/// The next bar line never goes back as the position moves on.
pub proof fn lines_climb(grid: BarGrid, a: int, b: int)
    requires
        grid.wf(),
        0 <= a <= b,
    ensures
        grid.line_after(a) <= grid.line_after(b),
{
    lines_bracket(grid, a);
    lines_bracket(grid, b);
    if grid.line_after(b) < grid.line_after(a) {
        let bar = grid.bar();
        let x = grid.line_after(a);
        let y = grid.line_after(b);
        lemma_fundamental_div_mod(x, bar);
        lemma_fundamental_div_mod(y, bar);
        // Two lines are at least a bar apart, and the later one is less than a bar past `a`.
        assert(x - y >= bar) by (nonlinear_arith)
            requires
                x == bar * (x / bar),
                y == bar * (y / bar),
                y < x,
                bar > 0,
        ;
    }
}

/// The bar lines around a position are on the grid, hold it between them, and are the same
/// line exactly when the position is on one.
pub proof fn lines_bracket(grid: BarGrid, pos: int)
    requires
        grid.wf(),
        0 <= pos,
    ensures
        grid.line_before(pos) % grid.bar() == 0,
        grid.line_after(pos) % grid.bar() == 0,
        0 <= grid.line_before(pos) <= pos <= grid.line_after(pos),
        pos - grid.line_before(pos) < grid.bar(),
        grid.line_after(pos) - pos < grid.bar(),
        grid.line_before(pos) == grid.line_after(pos) <==> pos % grid.bar() == 0,
        grid.line_before(pos) == (pos / grid.bar()) * grid.bar(),
{
    let bar = grid.bar();
    lemma_fundamental_div_mod(pos, bar);
    lemma_mod_bound(pos, bar);
    lemma_mul_is_commutative(bar, pos / bar);
    lemma_div_pos_is_pos(pos, bar);
    lemma_mod_multiples_basic(pos / bar, bar);
    lemma_mod_multiples_basic(pos / bar + 1, bar);
    assert((pos / bar + 1) * bar == (pos / bar) * bar + bar) by (nonlinear_arith);
    assert(0 <= (pos / bar) * bar) by (nonlinear_arith)
        requires
            0 <= pos / bar,
            0 < bar,
    ;
}

/// Asking where a beat starts and which beat that is undo each other, so long as a beat is
/// at least a frame. The same holds of the last frame of a beat.
pub proof fn beats_round_trip(grid: BarGrid, bar: int, beat: int)
    requires
        grid.wf(),
        0 <= bar,
        0 <= beat < grid.beats(),
        grid.beats() <= grid.bar(),
    ensures
        ({
            let length = grid.bar();
            let start = bar * length + cut_offset(length, beat, grid.beats());
            let last = bar * length + cut_offset(length, beat + 1, grid.beats()) - 1;
            &&& start <= last
            &&& start / length == bar
            &&& last / length == bar
            &&& cut_at(length, start % length, grid.beats()) == beat
            &&& cut_at(length, last % length, grid.beats()) == beat
        }),
{
    let length = grid.bar();
    let beats = grid.beats();
    let from = cut_offset(length, beat, beats);
    let to = cut_offset(length, beat + 1, beats);
    assert(length * (beat + 1) == length * beat + length) by (nonlinear_arith);
    // A beat is at least a frame long.
    assert(from + 1 <= to) by {
        lemma_div_is_ordered(length * beat + beats, length * (beat + 1), beats);
        lemma_div_plus_one(length * beat, beats);
        assert((beats + length * beat) / beats == 1 + (length * beat) / beats);
    }
    assert(0 <= length * beat) by (nonlinear_arith)
        requires
            0 <= length,
            0 <= beat,
    ;
    lemma_div_pos_is_pos(length * beat, beats);
    cut_brackets(length, 0, beats);
    cuts_climb(length, beat + 1, beats, beats);
    assert(0 <= from < to <= length);
    places_in_bar(length, bar, from);
    places_in_bar(length, bar, to - 1);
    cut_is_found(length, from, beat, beats);
    cut_is_found(length, to - 1, beat, beats);
}

proof fn places_in_bar(length: int, bar: int, into: int)
    requires
        0 <= into < length,
        0 <= bar,
    ensures
        (bar * length + into) / length == bar,
        (bar * length + into) % length == into,
{
    lemma_div_multiples_vanish_fancy(bar, into, length);
    assert(length * bar == bar * length) by (nonlinear_arith);
    lemma_fundamental_div_mod(bar * length + into, length);
    assert(length * ((bar * length + into) / length) == bar * length) by (nonlinear_arith)
        requires
            (bar * length + into) / length == bar,
    ;
}

/// A position between two neighbouring cuts finds the first of them.
proof fn cut_is_found(bar: int, into: int, cut: int, cuts: int)
    requires
        0 <= into < bar,
        0 <= cut < cuts,
        cut_offset(bar, cut, cuts) <= into < cut_offset(bar, cut + 1, cuts),
    ensures
        cut_at(bar, into, cuts) == cut,
{
    cut_brackets(bar, into, cuts);
    let found = cut_at(bar, into, cuts);
    if found < cut {
        cuts_climb(bar, found + 1, cut, cuts);
    } else if found > cut {
        cuts_climb(bar, cut + 1, found, cuts);
    }
}

/// The next beat, or the next of any number of equal cuts, is strictly later than the
/// position, no further than the next bar line, and no cut of the bar falls in between.
pub proof fn next_cut_is_next(grid: BarGrid, pos: int, cuts: int, other: int)
    requires
        grid.wf(),
        0 <= pos,
        0 < cuts,
        0 <= other <= cuts,
    ensures
        pos < grid.cut_after(pos, cuts) <= grid.line_before(pos) + grid.bar(),
        ({
            let cut = grid.line_before(pos) + cut_offset(grid.bar(), other, cuts);
            cut <= pos || grid.cut_after(pos, cuts) <= cut
        }),
{
    let into = pos % grid.bar();
    lemma_mod_bound(pos, grid.bar());
    cut_brackets(grid.bar(), into, cuts);
    let found = cut_at(grid.bar(), into, cuts);
    cuts_climb(grid.bar(), found + 1, cuts, cuts);
    if other <= found {
        cuts_climb(grid.bar(), other, found, cuts);
    } else {
        cuts_climb(grid.bar(), found + 1, other, cuts);
    }
}

/// Between one of equal cuts of a bar and the next there is nothing: no position strictly in
/// between is a cut, and the next one stays the same from anywhere there.
pub proof fn nothing_between_cuts(grid: BarGrid, pos: int, cuts: int, later: int)
    requires
        grid.wf(),
        0 <= pos <= later,
        0 < cuts,
        later < grid.cut_after(pos, cuts),
    ensures
        grid.cut_after(later, cuts) == grid.cut_after(pos, cuts),
        pos < later ==> !grid.is_cut(later, cuts),
{
    let bar = grid.bar();
    let into = pos % bar;
    lemma_mod_bound(pos, bar);
    next_cut_is_next(grid, pos, cuts, 0);
    lines_bracket(grid, pos);
    let line = grid.line_before(pos);
    let further = later - line;
    places_in_bar(bar, pos / bar, further);
    assert(later == (pos / bar) * bar + further);
    assert(later % bar == further);
    cut_brackets(bar, into, cuts);
    let cut = cut_at(bar, into, cuts);
    cut_is_found(bar, further, cut, cuts);
}

/// The clock never runs backwards along the transport.
pub proof fn ticks_climb(grid: BarGrid, earlier: int, later: int)
    requires
        grid.wf(),
        0 <= earlier <= later,
    ensures
        grid.ticks(earlier) <= grid.ticks(later),
{
    let per_bar = CLOCK_TICKS_PER_QUARTER * (grid.beats() * 4);
    let divisor = grid.signature_at().unit() * grid.bar();
    assert(divisor > 0) by (nonlinear_arith)
        requires
            divisor == grid.signature_at().unit() * grid.bar(),
            grid.signature_at().unit() > 0,
            grid.bar() > 0,
    ;
    assert(earlier * per_bar <= later * per_bar) by (nonlinear_arith)
        requires
            earlier <= later,
            per_bar >= 0,
    ;
    lemma_div_is_ordered(earlier * per_bar, later * per_bar, divisor);
}

/// A bar carries as many clock ticks as it has quarter notes' worth, whatever the tempo.
pub proof fn ticks_in_bars(grid: BarGrid, bars: int)
    requires
        grid.wf(),
        0 <= bars,
    ensures
        grid.ticks(bars * grid.bar()) == bars * (CLOCK_TICKS_PER_QUARTER * (grid.beats() * 4))
            / grid.signature_at().unit(),
{
    let per_bar = CLOCK_TICKS_PER_QUARTER * (grid.beats() * 4);
    let unit = grid.signature_at().unit();
    let bar = grid.bar();
    assert((bars * bar) * per_bar == (bars * per_bar) * bar) by (nonlinear_arith);
    assert(unit * bar == bar * unit) by (nonlinear_arith);
    assert((bars * per_bar) * bar >= 0) by (nonlinear_arith)
        requires
            bars >= 0,
            per_bar >= 0,
            bar >= 0,
    ;
    lemma_div_denominator((bars * per_bar) * bar, bar, unit);
    lemma_div_by_multiple(bars * per_bar, bar);
}

/// Moving to another grid keeps the bar number, and moving to a grid with the same bar moves
/// nothing.
pub proof fn rebasing_keeps_the_bar(grid: BarGrid, pos: int, target: BarGrid)
    requires
        grid.wf(),
        target.wf(),
        0 <= pos,
    ensures
        grid.rebased(pos, target) / target.bar() == pos / grid.bar(),
        target.bar() == grid.bar() ==> grid.rebased(pos, target) == pos,
        pos % grid.bar() == 0 ==> grid.rebased(pos, target) % target.bar() == 0,
{
    let bar = pos / grid.bar();
    let into = pos % grid.bar();
    let scaled = into * target.bar() / grid.bar();
    lemma_mod_bound(pos, grid.bar());
    lemma_fundamental_div_mod(pos, grid.bar());
    lemma_div_pos_is_pos(pos, grid.bar());
    assert(into * target.bar() < target.bar() * grid.bar()) by (nonlinear_arith)
        requires
            into < grid.bar(),
            target.bar() > 0,
    ;
    assert(0 <= into * target.bar()) by (nonlinear_arith)
        requires
            0 <= into,
            0 < target.bar(),
    ;
    lemma_multiply_divide_lt(into * target.bar(), grid.bar(), target.bar());
    lemma_div_pos_is_pos(into * target.bar(), grid.bar());
    places_in_bar(target.bar(), bar, scaled);
    if target.bar() == grid.bar() {
        lemma_div_by_multiple(into, grid.bar());
        assert(bar * grid.bar() == grid.bar() * bar) by (nonlinear_arith);
    }
    if into == 0 {
        assert(0 * target.bar() == 0);
        lemma_div_basics(grid.bar());
    }
}

/// A take begun on a bar line ends on one, after at least a bar, and everything but the bar
/// in progress when it was stopped is kept: pressing anywhere inside a bar gives the same end.
pub proof fn takes_are_whole_bars(grid: BarGrid, start: int, pressed_at: int)
    requires
        grid.wf(),
        0 <= start,
        0 <= pressed_at,
        start % grid.bar() == 0,
    ensures
        grid.record_end(start, pressed_at) % grid.bar() == 0,
        grid.record_end(start, pressed_at) >= start + grid.bar(),
        (grid.record_end(start, pressed_at) - start) % grid.bar() == 0,
        pressed_at >= start + grid.bar() ==> pressed_at - grid.bar() < grid.record_end(
            start,
            pressed_at,
        ) <= pressed_at,
        grid.record_end(start, grid.line_before(pressed_at)) == grid.record_end(start, pressed_at),
{
    let bar = grid.bar();
    lines_bracket(grid, pressed_at);
    lines_bracket(grid, grid.line_before(pressed_at));
    lines_bracket(grid, start);
    let end = grid.record_end(start, pressed_at);
    lemma_mod_adds(start, bar, bar);
    lemma_mod_self_0(bar);
    assert((start + bar) % bar == 0) by {
        lemma_fundamental_div_mod(start, bar);
        lemma_mod_multiples_basic(start / bar + 1, bar);
        assert((start / bar + 1) * bar == bar * (start / bar) + bar) by (nonlinear_arith);
    }
    assert((end - start) % bar == 0) by {
        lemma_fundamental_div_mod(start, bar);
        lemma_fundamental_div_mod(end, bar);
        lemma_mod_multiples_basic(end / bar - start / bar, bar);
        assert((end / bar - start / bar) * bar == bar * (end / bar) - bar * (start / bar))
            by (nonlinear_arith);
    }
    if pressed_at >= start + bar {
        // The line before the press is at or after the first one the take could end on.
        let p = pressed_at / bar;
        let s = start / bar;
        lemma_fundamental_div_mod(start, bar);
        lemma_fundamental_div_mod(pressed_at, bar);
        lemma_div_is_ordered(start + bar, pressed_at, bar);
        lemma_div_plus_one(start, bar);
        assert((bar + start) / bar == 1 + s);
        assert(p >= s + 1);
        assert(bar * p >= bar * s + bar) by (nonlinear_arith)
            requires
                p >= s + 1,
                bar > 0,
        ;
    }
}

/// How often the click sounds, as a note value.
#[derive(Debug, Clone, Copy, PartialEq, Eq, Structural)]
pub enum Subdivision {
    /// One click to a whole note.
    Whole,
    /// Two.
    Half,
    /// Three, in the time of two halves.
    HalfTriplet,
    /// Four.
    Quarter,
    /// Six, in the time of four quarters.
    QuarterTriplet,
    /// Eight.
    Eighth,
    /// Twelve, in the time of eight eighths.
    EighthTriplet,
    /// Sixteen.
    Sixteenth,
}

impl Default for Subdivision {
    fn default() -> (r: Self)
        ensures
            r == Subdivision::Quarter,
    {
        Subdivision::Quarter
    }
}

impl Subdivision {
    /// Clicks in a whole note.
    pub open spec fn rate(self) -> int {
        match self {
            Subdivision::Whole => 1,
            Subdivision::Half => 2,
            Subdivision::HalfTriplet => 3,
            Subdivision::Quarter => 4,
            Subdivision::QuarterTriplet => 6,
            Subdivision::Eighth => 8,
            Subdivision::EighthTriplet => 12,
            Subdivision::Sixteenth => 16,
        }
    }

    /// Whether a bar holds a whole number of clicks.
    pub open spec fn divides(self, signature: TimeSignature) -> bool {
        (signature.beats() * self.rate()) % signature.unit() == 0
    }

    fn clicks_per_whole(self) -> (r: u32)
        ensures
            r == self.rate(),
            1 <= r <= 16,
    {
        match self {
            Subdivision::Whole => 1,
            Subdivision::Half => 2,
            Subdivision::HalfTriplet => 3,
            Subdivision::Quarter => 4,
            Subdivision::QuarterTriplet => 6,
            Subdivision::Eighth => 8,
            Subdivision::EighthTriplet => 12,
            Subdivision::Sixteenth => 16,
        }
    }

    /// What it is called.
    pub open spec fn called(self) -> Seq<char> {
        match self {
            Subdivision::Whole => "1/1"@,
            Subdivision::Half => "1/2"@,
            Subdivision::HalfTriplet => "1/2T"@,
            Subdivision::Quarter => "1/4"@,
            Subdivision::QuarterTriplet => "1/4T"@,
            Subdivision::Eighth => "1/8"@,
            Subdivision::EighthTriplet => "1/8T"@,
            Subdivision::Sixteenth => "1/16"@,
        }
    }

    /// What to call it.
    pub fn name(self) -> (r: &'static str)
        ensures
            r@ == self.called(),
    {
        match self {
            Subdivision::Whole => "1/1",
            Subdivision::Half => "1/2",
            Subdivision::HalfTriplet => "1/2T",
            Subdivision::Quarter => "1/4",
            Subdivision::QuarterTriplet => "1/4T",
            Subdivision::Eighth => "1/8",
            Subdivision::EighthTriplet => "1/8T",
            Subdivision::Sixteenth => "1/16",
        }
    }

    /// Whether a bar of this signature holds a whole number of these.
    pub fn fits(self, signature: TimeSignature) -> (r: bool)
        ensures
            r == self.divides(signature),
    {
        let beats: u64 = signature.beats_per_bar() as u64;
        let rate: u64 = self.clicks_per_whole() as u64;
        let unit: u64 = signature.beat_unit() as u64;
        proof {
            product_fits(beats as int, rate as int);
        }
        (beats * rate) % unit == 0
    }

    /// The rate that clicks once a beat, which a bar always holds a whole number of. Beats
    /// shorter than the quickest click get that one.
    pub fn fitting(signature: TimeSignature) -> (r: Self)
        ensures
            r == (if signature.unit() == 1 {
                Subdivision::Whole
            } else if signature.unit() == 2 {
                Subdivision::Half
            } else if signature.unit() == 4 {
                Subdivision::Quarter
            } else if signature.unit() == 8 {
                Subdivision::Eighth
            } else {
                Subdivision::Sixteenth
            }),
    {
        let unit: u32 = signature.beat_unit();
        if unit == 1 {
            Subdivision::Whole
        } else if unit == 2 {
            Subdivision::Half
        } else if unit == 4 {
            Subdivision::Quarter
        } else if unit == 8 {
            Subdivision::Eighth
        } else {
            Subdivision::Sixteenth
        }
    }

    /// Clicks a bar of a signature is cut into, which is one a beat where this rate does not
    /// fit.
    pub open spec fn clicks(self, signature: TimeSignature) -> int {
        let whole = signature.beats() * self.rate() / signature.unit();
        if !self.divides(signature) {
            signature.beats()
        } else if whole > u32::MAX {
            u32::MAX as int
        } else {
            whole
        }
    }

    /// Clicks a bar of this signature is cut into.
    pub fn clicks_per_bar(self, signature: TimeSignature) -> (r: u32)
        ensures
            r == self.clicks(signature),
            r > 0,
    {
        let beats: u64 = signature.beats_per_bar() as u64;
        let rate: u64 = self.clicks_per_whole() as u64;
        let unit: u64 = signature.beat_unit() as u64;
        proof {
            product_fits(beats as int, rate as int);
            assert(beats * rate >= 1) by (nonlinear_arith)
                requires
                    beats >= 1,
                    rate >= 1,
            ;
            lemma_fundamental_div_mod(beats * rate, unit as int);
            lemma_div_pos_is_pos(beats * rate, unit as int);
        }
        let clicks: u64 = beats * rate / unit;
        if (beats * rate) % unit != 0 {
            return signature.beats_per_bar();
        }
        proof {
            assert(clicks > 0) by (nonlinear_arith)
                requires
                    beats * rate == unit * clicks,
                    beats * rate >= 1,
                    unit > 0,
                    clicks >= 0,
            ;
        }
        if clicks > u32::MAX as u64 {
            u32::MAX
        } else {
            clicks as u32
        }
    }
}

/// The fallback rate fits every signature whose beat is no shorter than a sixteenth.
pub proof fn fallback_fits(signature: TimeSignature, fallback: Subdivision)
    requires
        signature.wf(),
        fallback.rate() == signature.unit(),
    ensures
        fallback.divides(signature),
        fallback.clicks(signature) == signature.beats(),
{
    lemma_mod_multiples_basic(signature.beats(), signature.unit());
    lemma_div_by_multiple(signature.beats(), signature.unit());
}

/// The clicks fill the bar: where a rate fits, so many of them make a whole note and the bar holds
/// as many as its share of whole notes; where it does not, there is one a beat.
pub proof fn clicks_fill_the_bar(subdivision: Subdivision, signature: TimeSignature)
    requires
        signature.wf(),
        signature.beats() * 16 <= u32::MAX,
    ensures
        subdivision.divides(signature) ==> subdivision.clicks(signature) * signature.unit()
            == signature.beats() * subdivision.rate(),
        !subdivision.divides(signature) ==> subdivision.clicks(signature) == signature.beats(),
        1 <= subdivision.rate() <= 16,
{
    let beats = signature.beats();
    let rate = subdivision.rate();
    let unit = signature.unit();
    lemma_fundamental_div_mod(beats * rate, unit);
    let whole = beats * rate / unit;
    assert(unit * whole == whole * unit) by (nonlinear_arith);
    assert(0 <= beats * rate <= beats * 16) by (nonlinear_arith)
        requires
            0 <= beats,
            1 <= rate <= 16,
    ;
    assert(whole <= beats * rate) by (nonlinear_arith)
        requires
            0 <= beats * rate,
            whole * unit <= beats * rate,
            unit >= 1,
            whole >= 0 || whole < 0,
    ;
}

/// Moving to another grid keeps the place in the bar: as much of the new bar has passed as of the
/// old one, to the frame.
pub proof fn rebasing_keeps_the_place_in_the_bar(grid: BarGrid, pos: int, target: BarGrid)
    requires
        grid.wf(),
        target.wf(),
        0 <= pos,
    ensures
        ({
            let into = pos % grid.bar();
            let there = grid.rebased(pos, target) % target.bar();
            &&& there * grid.bar() <= into * target.bar()
            &&& into * target.bar() < (there + 1) * grid.bar()
        }),
        grid.rebased(pos, target) >= 0,
{
    let bar = grid.bar();
    let into = pos % bar;
    let scaled = into * target.bar() / bar;
    lemma_mod_bound(pos, bar);
    lemma_div_pos_is_pos(pos, bar);
    assert(0 <= into * target.bar() < target.bar() * bar) by (nonlinear_arith)
        requires
            0 <= into < bar,
            target.bar() > 0,
    ;
    lemma_fundamental_div_mod(into * target.bar(), bar);
    lemma_mod_bound(into * target.bar(), bar);
    assert(scaled * bar <= into * target.bar() < (scaled + 1) * bar && 0 <= scaled < target.bar())
        by (nonlinear_arith)
        requires
            into * target.bar() == bar * scaled + (into * target.bar()) % bar,
            0 <= (into * target.bar()) % bar < bar,
            0 <= into * target.bar() < target.bar() * bar,
            0 < bar,
    ;
    places_in_bar(target.bar(), pos / bar, scaled);
    assert(0 <= (pos / bar) * target.bar()) by (nonlinear_arith)
        requires
            0 <= pos / bar,
            0 < target.bar(),
    ;
}

} // verus!
