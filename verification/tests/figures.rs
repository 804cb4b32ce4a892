//! The library's whole-number arithmetic against the floating point it stands for.

use core::time::Duration;

use free_loop::click::Tone;
use free_loop::control::Controller;
use free_loop::event::Event;
use free_loop::gain::gain_for_step;
use free_loop::grid::{BarGrid, Subdivision};
use free_loop::time::{Frames, SampleRate, Tempo, TimeError, TimeSignature, MAX_BPM, MIN_BPM};

/// Numbers that look random and are the same every time.
struct Numbers(u64);

impl Numbers {
    fn next(&mut self) -> u64 {
        self.0 ^= self.0 << 13;
        self.0 ^= self.0 >> 7;
        self.0 ^= self.0 << 17;
        self.0
    }

    fn between(&mut self, low: f64, high: f64) -> f64 {
        low + (high - low) * ((self.next() >> 11) as f64 / (1_u64 << 53) as f64)
    }
}

fn tempo(bpm: f64) -> Tempo {
    Tempo::new(bpm.to_bits()).unwrap()
}

fn bpm(tempo: Tempo) -> f64 {
    f64::from_bits(tempo.bpm())
}

/// The bar in floating point, rounded to whole frames.
fn bar(rate: u32, bpm: f64, beats: u32, unit: u32) -> Option<u64> {
    let quarters = f64::from(beats) * 4.0 / f64::from(unit);
    let frames = (f64::from(rate) * (60.0 / bpm * quarters)).round();
    (frames >= 1.0 && frames <= f64::from(u32::MAX)).then_some(frames as u64)
}

#[test]
fn a_bar_is_as_long_as_floating_point_makes_it() {
    let mut numbers = Numbers(0x9e37_79b9_7f4a_7c15);
    for round in 0..20_000 {
        let bpm = if round % 4 == 0 {
            (20 + numbers.next() % 281) as f64
        } else {
            numbers.between(20.0, 300.0)
        };
        let rate = match round % 3 {
            0 => 48_000,
            1 => 44_100,
            _ => u32::try_from(numbers.next() % 400_000 + 1).unwrap(),
        };
        let beats = u32::try_from(numbers.next() % 16 + 1).unwrap();
        let unit = 1_u32 << (numbers.next() % 6);
        let grid = BarGrid::new(
            SampleRate::new(rate).unwrap(),
            tempo(bpm),
            TimeSignature::new(beats, unit).unwrap(),
        );
        match bar(rate, bpm, beats, unit) {
            Some(frames) => assert_eq!(
                grid.map(BarGrid::frames_per_bar),
                Ok(Frames(frames)),
                "{rate} Hz, {bpm} bpm, {beats}/{unit}"
            ),
            None => assert_eq!(grid, Err(TimeError::BarLengthUnrepresentable)),
        }
    }
}

#[test]
fn a_nudge_moves_the_tempo_as_floating_point_does() {
    let mut numbers = Numbers(0x2545_f491_4f6c_dd1d);
    for _ in 0..20_000 {
        let start = numbers.between(20.0, 300.0);
        for beats in [1, -1, 5, -5] {
            let wanted = (start + f64::from(beats)).clamp(20.0, 300.0);
            assert_eq!(bpm(tempo(start).nudged(beats)), wanted, "{start} by {beats}");
        }
    }
}

#[test]
fn a_nudge_stops_at_the_ends_of_the_range() {
    assert_eq!(tempo(300.0).nudged(1), tempo(300.0));
    assert_eq!(tempo(20.0).nudged(-1), tempo(20.0));
    assert_eq!(tempo(299.5).nudged(5), tempo(300.0));
    assert_eq!(f64::from_bits(MIN_BPM), 20.0);
    assert_eq!(f64::from_bits(MAX_BPM), 300.0);
}

#[test]
fn a_tempo_reads_as_the_nearest_whole_number() {
    let mut numbers = Numbers(7);
    for _ in 0..20_000 {
        let value = numbers.between(20.0, 300.0);
        assert_eq!(f64::from(tempo(value).rounded()), value.round());
    }
    assert_eq!(tempo(120.5).rounded(), 121);
}

#[test]
fn tempos_outside_the_range_are_refused() {
    for value in [19.999, 300.001, -120.0, f64::INFINITY, f64::NEG_INFINITY, -f64::NAN] {
        assert_eq!(Tempo::new(value.to_bits()), Err(TimeError::TempoOutOfRange));
    }
    assert!(Tempo::new(20.0_f64.to_bits()).is_ok());
    assert!(Tempo::new(300.0_f64.to_bits()).is_ok());
}

#[test]
fn the_beat_is_lit_for_as_long_as_floating_point_says() {
    let mut numbers = Numbers(99);
    for _ in 0..500 {
        let value = numbers.between(20.0, 300.0);
        let unit = 1_u32 << (numbers.next() % 5);
        let signature = TimeSignature::new(4, unit).unwrap();
        let lit = Duration::from_secs_f64(120.0 / (value * f64::from(unit))).as_nanos();

        let mut controller = Controller::new(tempo(value), signature, true);
        controller.on_engine(Event::Beat { bar: 0, beat: 1 }, 0);
        controller.take_frame();
        controller.tick(lit - 1);
        assert!(controller.take_frame().is_none(), "{value} bpm, /{unit}");
        controller.tick(lit);
        assert!(controller.take_frame().is_some(), "{value} bpm, /{unit}");
    }
}

#[test]
fn a_blip_is_as_long_as_floating_point_makes_it() {
    for rate in [1, 8_000, 11_025, 22_050, 44_100, 48_000, 88_200, 96_000, 192_000, 384_000] {
        let sample_rate = SampleRate::new(rate).unwrap();
        for (tone, millis) in [(Tone::Accent, 28.0_f32), (Tone::Beat, 18.0), (Tone::Sub, 12.0)] {
            let wanted = ((millis / 1000.0) * rate as f32).max(1.0) as u32;
            assert_eq!(tone.length(sample_rate), wanted, "{tone:?} at {rate}");
        }
    }
}

#[test]
fn milliseconds_become_frames() {
    let rate = SampleRate::new(48_000).unwrap();
    assert_eq!(Frames::from_millis(10, rate), Frames(480));
    assert_eq!(Frames::from_millis(0, rate), Frames(0));
    assert_eq!(
        Frames::from_millis(u64::MAX, rate),
        Frames(u64::MAX / 1_000),
        "held to what can be counted"
    );
}

#[test]
fn frames_never_go_below_the_origin() {
    assert_eq!(Frames(5).saturating_sub(Frames(9)), Frames(0));
    assert_eq!(Frames(9).saturating_sub(Frames(5)), Frames(4));
    assert_eq!(Frames(9).earlier(Frames(5)), Frames(5));
}

#[test]
fn the_levels_are_those_of_the_ladder() {
    let levels: Vec<f32> = (0..8).map(|s| f32::from_bits(gain_for_step(s))).collect();
    assert_eq!(levels[0], 0.0);
    assert_eq!(levels[4], 1.0);
    assert!(levels.windows(2).all(|pair| pair[0] < pair[1]));
}

#[test]
fn a_bar_is_cut_into_whole_clicks_or_not_at_all() {
    let four = TimeSignature::four_four();
    let three = TimeSignature::new(3, 4).unwrap();
    let seven = TimeSignature::new(7, 8).unwrap();
    assert_eq!(Subdivision::Quarter.clicks_per_bar(four), 4);
    assert_eq!(Subdivision::Sixteenth.clicks_per_bar(four), 16);
    assert_eq!(Subdivision::QuarterTriplet.clicks_per_bar(four), 6);
    assert!(!Subdivision::Half.fits(three));
    assert!(Subdivision::Eighth.fits(seven));
    assert!(!Subdivision::Quarter.fits(seven));
    assert_eq!(Subdivision::fitting(seven), Subdivision::Eighth);
    assert!(Subdivision::fitting(seven).fits(seven));
}

#[test]
fn each_refusal_of_musical_time_says_why() {
    assert_eq!(
        TimeError::ZeroSampleRate.message(),
        "sample rate must be greater than zero"
    );
    assert_eq!(
        TimeError::TempoOutOfRange.message(),
        "tempo must be between 20 and 300 bpm"
    );
    let huge = BarGrid::new(
        SampleRate::new(u32::MAX).unwrap(),
        tempo(20.0),
        TimeSignature::new(u32::MAX, 1).unwrap(),
    );
    assert_eq!(huge, Err(TimeError::BarLengthUnrepresentable));
    assert_eq!(
        TimeError::BarLengthUnrepresentable.message(),
        "the resulting bar length is not representable"
    );
}

#[test]
fn a_bar_is_within_half_a_frame_of_its_real_length() {
    for (rate, tempo, beats, unit) in [
        (48_000, 120.0, 4, 4),
        (44_100, 93.7, 7, 8),
        (192_000, 20.0, 11, 2),
        (8_000, 299.9, 5, 16),
    ] {
        let real = 60.0 * f64::from(rate) * f64::from(beats) * 4.0 / (f64::from(unit) * tempo);
        let frames = bar(rate, tempo, beats, unit).unwrap();
        assert!((frames as f64 - real).abs() <= 0.5, "{frames} for {real}");
    }
}
