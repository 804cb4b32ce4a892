use free_loop::grid::BarGrid;
use free_loop::time::{
    Frames, SampleRate, Tempo, TimeError, TimeSignature, CLOCK_TICKS_PER_QUARTER,
};

fn tempo(bpm: f64) -> Result<Tempo, TimeError> {
    Tempo::new(bpm.to_bits())
}


fn grid(bpm: f64) -> BarGrid {
    BarGrid::new(
        SampleRate::new(48_000).unwrap(),
        tempo(bpm).unwrap(),
        TimeSignature::four_four(),
    )
    .unwrap()
}

#[test]
fn bar_length_at_common_tempos() {
    assert_eq!(grid(120.0).frames_per_bar(), Frames(96_000));
    assert_eq!(grid(60.0).frames_per_bar(), Frames(192_000));
    // A bar that is not a whole number of frames rounds cleanly.
    assert_eq!(grid(123.0).frames_per_bar(), Frames(93_659));
}

#[test]
fn bars_do_not_drift_at_awkward_tempos() {
    let g = grid(123.0);
    assert_eq!(g.bar_start(1000), Frames(g.frames_per_bar().0 * 1000));
    assert_eq!(g.bar_of(g.bar_start(1000)), 1000);
    assert_eq!(g.bar_of(g.bar_start(1000).saturating_sub(Frames(1))), 999);
}

#[test]
fn tempo_and_signature_are_validated() {
    assert_eq!(tempo(0.0), Err(TimeError::TempoOutOfRange));
    assert_eq!(tempo(f64::NAN), Err(TimeError::TempoOutOfRange));
    assert_eq!(tempo(1000.0), Err(TimeError::TempoOutOfRange));
    assert_eq!(SampleRate::new(0), Err(TimeError::ZeroSampleRate));
    assert_eq!(
        TimeSignature::new(4, 3),
        Err(TimeError::InvalidTimeSignature)
    );
    assert_eq!(
        TimeSignature::new(0, 4),
        Err(TimeError::InvalidTimeSignature)
    );
    assert!(TimeSignature::new(7, 8).is_ok());
}

#[test]
fn odd_meter_bar_length() {
    // 7/8 at 120 bpm = 3.5 quarters = 1.75 s.
    let g = BarGrid::new(
        SampleRate::new(48_000).unwrap(),
        tempo(120.0).unwrap(),
        TimeSignature::new(7, 8).unwrap(),
    )
    .unwrap();
    assert_eq!(g.frames_per_bar(), Frames(84_000));
}

#[test]
fn next_boundary_is_inclusive_of_an_exact_hit() {
    let g = grid(120.0);
    assert_eq!(g.next_boundary(Frames(0)), Frames(0));
    assert_eq!(g.next_boundary(Frames(1)), Frames(96_000));
    assert_eq!(g.next_boundary(Frames(96_000)), Frames(96_000));
    assert_eq!(g.next_boundary(Frames(96_001)), Frames(192_000));
}

#[test]
fn beats_partition_the_bar_exactly() {
    let g = grid(123.0);
    let fpb = g.frames_per_bar().0;
    assert_eq!(g.beat_offset(0), Frames(0));
    assert_eq!(g.beat_offset(4), Frames(fpb));

    for beat in 0..4 {
        let start = g.beat_offset(beat).0;
        let end = g.beat_offset(beat + 1).0;
        assert!(start < end);
        assert_eq!(g.beat_of(Frames(start)), (0, beat));
        assert_eq!(g.beat_of(Frames(end - 1)), (0, beat));
    }
}

#[test]
fn next_beat_boundary_rolls_into_the_next_bar() {
    let g = grid(120.0);
    assert_eq!(g.next_beat_boundary(Frames(0)), Frames(24_000));
    assert_eq!(g.next_beat_boundary(Frames(23_999)), Frames(24_000));
    assert_eq!(g.next_beat_boundary(Frames(72_001)), Frames(96_000));
}

#[test]
fn a_bar_of_four_four_carries_ninety_six_clock_ticks() {
    let g = grid(120.0);
    assert_eq!(g.clock_ticks_at(Frames::zero()), 0);
    assert_eq!(g.clock_ticks_at(g.frames_per_bar()), 96);
    assert_eq!(g.clock_ticks_at(g.bar_start(4)), 4 * 96);
}

#[test]
fn clock_ticks_land_on_the_beats() {
    let g = grid(120.0);
    for beat in 0..4 {
        assert_eq!(
            g.clock_ticks_at(g.beat_offset(beat)),
            u64::from(beat) * CLOCK_TICKS_PER_QUARTER
        );
    }
}

#[test]
fn clock_ticks_count_quarters_not_beats() {
    // 7/8 is three and a half quarters, so 84 ticks rather than 7 beats worth.
    let g = BarGrid::new(
        SampleRate::new(48_000).unwrap(),
        tempo(120.0).unwrap(),
        TimeSignature::new(7, 8).unwrap(),
    )
    .unwrap();
    assert_eq!(g.clock_ticks_at(g.frames_per_bar()), 84);
}

#[test]
fn clock_ticks_never_go_backwards() {
    let g = grid(123.0);
    let mut previous = 0;
    for step in 0..2_000 {
        let now = g.clock_ticks_at(Frames(step * 137));
        assert!(now >= previous);
        previous = now;
    }
}

#[test]
fn a_faster_tempo_ticks_more_often() {
    let slow = grid(60.0).clock_ticks_at(Frames(48_000));
    let fast = grid(120.0).clock_ticks_at(Frames(48_000));
    assert_eq!(fast, slow * 2);
}

#[test]
fn rebasing_keeps_the_bar_and_the_fraction_through_it() {
    let slow = grid(60.0);
    let fast = grid(120.0);

    // Half way through bar 3 at 60 bpm.
    let position = slow.bar_start(3) + Frames(slow.frames_per_bar().0 / 2);
    let moved = slow.rebase_onto(position, fast);

    assert_eq!(fast.bar_of(moved), 3);
    assert_eq!(
        moved,
        fast.bar_start(3) + Frames(fast.frames_per_bar().0 / 2)
    );
}

#[test]
fn rebasing_holds_the_beat_within_the_bar() {
    let from = grid(120.0);
    let to = grid(140.0);

    for beat in 0..4 {
        let position = from.bar_start(2) + from.beat_offset(beat);
        let moved = from.rebase_onto(position, to);
        assert_eq!(to.beat_of(moved), (2, beat), "beat {beat}");
    }
}

#[test]
fn rebasing_onto_the_same_grid_changes_nothing() {
    let g = grid(123.0);
    let position = Frames(1_234_567);
    assert_eq!(g.rebase_onto(position, g), position);
}

#[test]
fn record_end_takes_the_bars_that_finished() {
    let g = grid(120.0);
    let start = Frames(96_000);

    // Stop pressed just after the bar 3 line: the two finished bars.
    let end = g.quantize_record_end(start, Frames(288_000 + 5_000));
    assert_eq!(end, Frames(288_000));
    assert_eq!((end - start).0 / g.frames_per_bar().0, 2);
}

#[test]
fn a_bar_still_in_progress_is_discarded() {
    let g = grid(120.0);
    let start = Frames(96_000);

    // Anywhere inside bar 3 gives the same answer: bars 1 and 2.
    for into_bar in [1, 24_000, 48_000, 95_999] {
        assert_eq!(
            g.quantize_record_end(start, Frames(288_000 + into_bar)),
            Frames(288_000),
            "{into_bar} frames into the bar"
        );
    }
}

#[test]
fn a_press_on_the_line_keeps_the_bar_that_just_ended() {
    let g = grid(120.0);
    assert_eq!(
        g.quantize_record_end(Frames(96_000), Frames(288_000)),
        Frames(288_000)
    );
}

#[test]
fn record_end_is_never_shorter_than_one_bar() {
    let g = grid(120.0);
    // Stop pressed in the very first bar, which has not finished.
    let end = g.quantize_record_end(Frames(96_000), Frames(96_100));
    assert_eq!(end, Frames(192_000));
}
