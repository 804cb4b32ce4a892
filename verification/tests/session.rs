use free_loop::grid::BarGrid;
use free_loop::ids::{ClipId, SlotAddr, SlotId, TrackId};
use free_loop::session::SessionModel;
use free_loop::slot::{Ctx, Effect, SlotState};
use free_loop::time::{Frames, SampleRate, Tempo, TimeError, TimeSignature};

fn tempo(bpm: f64) -> Result<Tempo, TimeError> {
    Tempo::new(bpm.to_bits())
}


const BAR: u64 = 96_000; // 120 bpm, 4/4, 48 kHz

fn ctx(now: u64, next_clip_id: u32) -> Ctx {
    Ctx {
        now: Frames(now),
        grid: BarGrid::new(
            SampleRate::new(48_000).unwrap(),
            tempo(120.0).unwrap(),
            TimeSignature::four_four(),
        )
        .unwrap(),
        next_clip_id: ClipId(next_clip_id),
    }
}

fn addr(track: u8, slot: u8) -> SlotAddr {
    SlotAddr::new(TrackId::new(track).unwrap(), SlotId::new(slot).unwrap())
}

/// Records `bars` bars into `at` from bar `start_bar`, leaving it playing.
fn record(model: &mut SessionModel, at: SlotAddr, start_bar: u64, bars: u64, clip: u32) {
    model.press(at, &ctx(start_bar * BAR, clip), &mut Vec::new());
    model.advance(&ctx(start_bar * BAR, clip), &mut Vec::new());
    let end = (start_bar + bars) * BAR;
    model.press(at, &ctx(end, clip), &mut Vec::new());
    model.advance(&ctx(end, clip), &mut Vec::new());
    assert_eq!(model.state(at), SlotState::Playing { clip: ClipId(clip) });
}

#[test]
fn a_mirrored_state_is_taken_verbatim() {
    let mut model = SessionModel::new();
    let target = addr(4, 6);
    model.mirror(target, SlotState::Playing { clip: ClipId(3) });

    assert_eq!(model.state(target), SlotState::Playing { clip: ClipId(3) });
    assert!(model.has_any_clip());
    assert_eq!(model.state(addr(4, 5)), SlotState::Empty);
}

#[test]
fn a_new_session_is_empty() {
    let model = SessionModel::new();
    assert!(!model.has_any_clip());
    assert!(SlotAddr::all().into_iter().all(|a| model.state(a) == SlotState::Empty));
}

#[test]
fn recording_a_clip_marks_the_session_as_having_clips() {
    let mut model = SessionModel::new();
    assert!(!model.has_any_clip());
    record(&mut model, addr(0, 0), 1, 2, 0);
    assert!(model.has_any_clip(), "tempo must lock once a clip exists");
}

#[test]
fn launching_a_sibling_hands_over_on_the_same_boundary() {
    let mut model = SessionModel::new();
    let first = addr(0, 0);
    let second = addr(0, 1);

    record(&mut model, first, 1, 2, 0);
    record(&mut model, second, 4, 1, 1);
    // The second took over from the first as it armed.
    assert_eq!(model.state(first), SlotState::Stopped { clip: ClipId(0) });

    // Relaunching the first queues the second to stop on the same boundary.
    model.press(first, &ctx(6 * BAR + 1_000, 2), &mut Vec::new());
    let boundary = Frames(7 * BAR);
    assert_eq!(
        model.state(first),
        SlotState::QueuedPlay {
            clip: ClipId(0),
            at: boundary
        }
    );
    assert_eq!(
        model.state(second),
        SlotState::QueuedStop {
            clip: ClipId(1),
            at: boundary
        }
    );

    model.advance(&ctx(7 * BAR, 2), &mut Vec::new());
    assert_eq!(model.state(first), SlotState::Playing { clip: ClipId(0) });
    assert_eq!(model.state(second), SlotState::Stopped { clip: ClipId(1) });
}

#[test]
fn only_one_slot_per_track_ever_sounds() {
    let mut model = SessionModel::new();
    record(&mut model, addr(0, 0), 1, 1, 0);
    record(&mut model, addr(0, 1), 3, 1, 1);
    record(&mut model, addr(0, 2), 5, 1, 2);

    let sounding = SlotId::all()
        .into_iter()
        .filter(|&slot| {
            model
                .state(SlotAddr::new(TrackId::new(0).unwrap(), slot))
                .is_active()
        })
        .count();
    assert_eq!(sounding, 1);
}

#[test]
fn tracks_do_not_interfere_with_each_other() {
    let mut model = SessionModel::new();
    record(&mut model, addr(0, 0), 1, 1, 0);
    record(&mut model, addr(1, 0), 3, 1, 1);

    assert_eq!(
        model.state(addr(0, 0)),
        SlotState::Playing { clip: ClipId(0) }
    );
    assert_eq!(
        model.state(addr(1, 0)),
        SlotState::Playing { clip: ClipId(1) }
    );
}

#[test]
fn presses_elsewhere_on_the_track_are_ignored_while_recording() {
    let mut model = SessionModel::new();
    let recording = addr(0, 0);
    let other = addr(0, 1);

    model.press(recording, &ctx(BAR, 0), &mut Vec::new());
    model.advance(&ctx(BAR, 0), &mut Vec::new());
    assert!(model.state(recording).is_recording());

    model.press(other, &ctx(BAR + 5_000, 0), &mut Vec::new());
    assert_eq!(model.state(other), SlotState::Empty);
    assert_eq!(
        model.state(recording),
        SlotState::Recording {
            started_at: Frames(BAR),
            ends_at: None
        }
    );

    // Other tracks are unaffected.
    model.press(addr(1, 0), &ctx(BAR + 5_000, 0), &mut Vec::new());
    assert_eq!(
        model.state(addr(1, 0)),
        SlotState::QueuedRecord {
            at: Frames(2 * BAR)
        }
    );
}

#[test]
fn the_recording_pad_can_still_stop_itself() {
    let mut model = SessionModel::new();
    let recording = addr(0, 0);
    model.press(recording, &ctx(BAR, 0), &mut Vec::new());
    model.advance(&ctx(BAR, 0), &mut Vec::new());

    model.press(recording, &ctx(3 * BAR, 0), &mut Vec::new());
    assert_eq!(
        model.state(recording),
        SlotState::Recording {
            started_at: Frames(BAR),
            ends_at: Some(Frames(3 * BAR)),
        }
    );
}

#[test]
fn stop_all_silences_everything_and_discards_recordings() {
    let mut model = SessionModel::new();
    record(&mut model, addr(0, 0), 1, 1, 0);
    record(&mut model, addr(1, 0), 1, 1, 1);
    model.press(addr(2, 0), &ctx(3 * BAR, 2), &mut Vec::new());
    model.advance(&ctx(3 * BAR, 2), &mut Vec::new());
    assert!(model.state(addr(2, 0)).is_recording());

    let mut work = Vec::new();
    model.stop_all(&ctx(3 * BAR + 1_000, 2), &mut work);
    let cancelled = work
        .iter()
        .filter(|(_, effect)| *effect == Effect::CancelCapture)
        .count();

    assert_eq!(cancelled, 1);
    assert!(SlotAddr::all().into_iter().all(|a| !model.state(a).is_active()));
    assert_eq!(
        model.state(addr(0, 0)),
        SlotState::Stopped { clip: ClipId(0) }
    );
    assert_eq!(model.state(addr(2, 0)), SlotState::Empty);
}

#[test]
fn clear_empties_a_pad_and_releases_its_clip() {
    let mut model = SessionModel::new();
    record(&mut model, addr(0, 0), 1, 1, 0);

    let mut work = Vec::new();
    model.clear(addr(0, 0), &ctx(3 * BAR, 1), &mut work);
    let mut released = Vec::new();
    for (_, effect) in work {
        if let Effect::ReleaseClip { clip } = effect {
            released.push(clip);
        }
    }

    assert_eq!(released, vec![ClipId(0)]);
    assert_eq!(model.state(addr(0, 0)), SlotState::Empty);
    assert!(!model.has_any_clip());
}

#[test]
fn advance_reports_effects_against_the_right_pads() {
    let mut model = SessionModel::new();
    let target = addr(3, 5);
    model.press(target, &ctx(BAR + 1_000, 0), &mut Vec::new());

    let mut seen = Vec::new();
    model.advance(&ctx(2 * BAR, 0), &mut seen);

    assert_eq!(
        seen,
        vec![(
            target,
            Effect::StartCapture {
                at: Frames(2 * BAR)
            }
        )]
    );
}

#[test]
fn taking_back_a_stop_drops_the_launch_that_was_to_follow() {
    let mut model = SessionModel::new();
    let (first, second) = (addr(0, 0), addr(0, 1));
    record(&mut model, first, 1, 1, 0);
    record(&mut model, second, 3, 1, 1);

    let mut work = Vec::new();
    model.press(first, &ctx(5 * BAR + 1, 2), &mut work);
    model.press(second, &ctx(5 * BAR + 2, 2), &mut work);
    assert_eq!(model.state(first), SlotState::Stopped { clip: ClipId(0) });
    assert_eq!(model.state(second), SlotState::Playing { clip: ClipId(1) });

    model.advance(&ctx(6 * BAR, 2), &mut work);
    assert!(!model.state(first).is_active());
    assert!(model.state(second).is_active());
    assert!(work.is_empty(), "nothing had to be carried out");
}
