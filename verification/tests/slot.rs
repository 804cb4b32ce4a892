use free_loop::grid::BarGrid;
use free_loop::ids::ClipId;
use free_loop::slot::{step, Ctx, Effect, Effects, SlotInput, SlotState};
use free_loop::time::{Frames, SampleRate, Tempo, TimeError, TimeSignature};

fn tempo(bpm: f64) -> Result<Tempo, TimeError> {
    Tempo::new(bpm.to_bits())
}


const BAR: u64 = 96_000; // 120 bpm, 4/4, 48 kHz

fn ctx(now: u64) -> Ctx {
    Ctx {
        now: Frames(now),
        grid: BarGrid::new(
            SampleRate::new(48_000).unwrap(),
            tempo(120.0).unwrap(),
            TimeSignature::four_four(),
        )
        .unwrap(),
        next_clip_id: ClipId(7),
    }
}

fn effects(e: Effects) -> Vec<Effect> {
    e.iter()
}

#[test]
fn press_on_empty_arms_for_the_next_bar() {
    let (state, fx) = step(SlotState::Empty, SlotInput::Press, &ctx(BAR + 1_000));
    assert_eq!(
        state,
        SlotState::QueuedRecord {
            at: Frames(2 * BAR)
        }
    );
    assert!(fx.is_empty());
}

#[test]
fn press_on_an_exact_boundary_arms_for_that_boundary() {
    let (state, _) = step(SlotState::Empty, SlotInput::Press, &ctx(2 * BAR));
    assert_eq!(
        state,
        SlotState::QueuedRecord {
            at: Frames(2 * BAR)
        }
    );
}

#[test]
fn second_press_disarms() {
    let armed = SlotState::QueuedRecord {
        at: Frames(2 * BAR),
    };
    let (state, fx) = step(armed, SlotInput::Press, &ctx(BAR + 2_000));
    assert_eq!(state, SlotState::Empty);
    assert!(fx.is_empty());
}

#[test]
fn advance_does_nothing_before_the_boundary() {
    let armed = SlotState::QueuedRecord {
        at: Frames(2 * BAR),
    };
    let (state, fx) = step(armed, SlotInput::Advance, &ctx(2 * BAR - 1));
    assert_eq!(state, armed);
    assert!(fx.is_empty());
}

#[test]
fn advance_starts_capture_on_the_boundary() {
    let armed = SlotState::QueuedRecord {
        at: Frames(2 * BAR),
    };
    let (state, fx) = step(armed, SlotInput::Advance, &ctx(2 * BAR));
    assert_eq!(
        state,
        SlotState::Recording {
            started_at: Frames(2 * BAR),
            ends_at: None,
        }
    );
    assert_eq!(
        effects(fx),
        vec![Effect::StartCapture {
            at: Frames(2 * BAR)
        }]
    );
}

/// Arm midway through bar 2, stop just past bar 7: a four-bar loop, already playing.
#[test]
fn arm_mid_bar_stop_slightly_late_yields_a_whole_number_of_bars() {
    let (state, _) = step(SlotState::Empty, SlotInput::Press, &ctx(2 * BAR + BAR / 2));
    assert_eq!(
        state,
        SlotState::QueuedRecord {
            at: Frames(3 * BAR)
        }
    );

    let (state, _) = step(state, SlotInput::Advance, &ctx(3 * BAR));
    let started_at = Frames(3 * BAR);
    assert_eq!(
        state,
        SlotState::Recording {
            started_at,
            ends_at: None
        }
    );

    // Just past the bar 7 line, so bars 3 to 6 are what finished.
    let late = 7 * BAR + 12_000;
    let (state, fx) = step(state, SlotInput::Press, &ctx(late));
    assert_eq!(
        state,
        SlotState::Recording {
            started_at,
            ends_at: Some(Frames(7 * BAR)),
        }
    );
    assert!(fx.is_empty());

    let (state, fx) = step(state, SlotInput::Advance, &ctx(7 * BAR));
    assert_eq!(state, SlotState::Playing { clip: ClipId(7) });
    assert_eq!(
        effects(fx),
        vec![
            Effect::FinishCapture {
                clip: ClipId(7),
                started_at,
                at: Frames(7 * BAR),
            },
            Effect::StartPlayback {
                clip: ClipId(7),
                at: Frames(7 * BAR),
            },
        ]
    );

    let len = 7 * BAR - started_at.0;
    assert_eq!(len / BAR, 4);
    assert_eq!(len % BAR, 0);
}

#[test]
fn stop_pressed_mid_bar_discards_that_bar() {
    let started_at = Frames(BAR);
    let recording = SlotState::Recording {
        started_at,
        ends_at: None,
    };
    let (state, _) = step(recording, SlotInput::Press, &ctx(3 * BAR + BAR / 2));
    assert_eq!(
        state,
        SlotState::Recording {
            started_at,
            ends_at: Some(Frames(3 * BAR)),
        }
    );
}

#[test]
fn pressing_again_cancels_a_queued_record_stop() {
    let started_at = Frames(BAR);
    let queued = SlotState::Recording {
        started_at,
        ends_at: Some(Frames(4 * BAR)),
    };
    let (state, _) = step(queued, SlotInput::Press, &ctx(3 * BAR + 1_000));
    assert_eq!(
        state,
        SlotState::Recording {
            started_at,
            ends_at: None
        }
    );
}

#[test]
fn a_recording_nobody_stops_carries_on() {
    let started_at = Frames(BAR);
    let recording = SlotState::Recording {
        started_at,
        ends_at: None,
    };
    let ctx = ctx(BAR + 400 * BAR);

    // Nothing but a stop or the storage running out ends a take.
    let (state, fx) = step(recording, SlotInput::Advance, &ctx);
    assert_eq!(state, recording);
    assert!(effects(fx).is_empty());
}

#[test]
fn a_recording_ends_where_it_was_told_to() {
    let started_at = Frames(BAR);
    let recording = SlotState::Recording {
        started_at,
        ends_at: Some(Frames(3 * BAR)),
    };
    let ctx = ctx(3 * BAR);

    let (state, fx) = step(recording, SlotInput::Advance, &ctx);
    assert_eq!(state, SlotState::Playing { clip: ClipId(7) });
    assert_eq!(
        effects(fx).first(),
        Some(&Effect::FinishCapture {
            clip: ClipId(7),
            started_at,
            at: Frames(3 * BAR),
        })
    );
}

#[test]
fn launch_and_stop_are_quantised_and_cancellable() {
    let clip = ClipId(3);

    let (state, _) = step(
        SlotState::Stopped { clip },
        SlotInput::Press,
        &ctx(BAR + 500),
    );
    assert_eq!(
        state,
        SlotState::QueuedPlay {
            clip,
            at: Frames(2 * BAR)
        }
    );

    let (cancelled, fx) = step(state, SlotInput::Press, &ctx(BAR + 600));
    assert_eq!(cancelled, SlotState::Stopped { clip });
    assert!(fx.is_empty());

    let (state, fx) = step(state, SlotInput::Advance, &ctx(2 * BAR));
    assert_eq!(state, SlotState::Playing { clip });
    assert_eq!(
        effects(fx),
        vec![Effect::StartPlayback {
            clip,
            at: Frames(2 * BAR)
        }]
    );

    let (state, _) = step(state, SlotInput::Press, &ctx(2 * BAR + 10));
    assert_eq!(
        state,
        SlotState::QueuedStop {
            clip,
            at: Frames(3 * BAR)
        }
    );

    let (state, fx) = step(state, SlotInput::Advance, &ctx(3 * BAR));
    assert_eq!(state, SlotState::Stopped { clip });
    assert_eq!(
        effects(fx),
        vec![Effect::StopPlayback {
            at: Frames(3 * BAR)
        }]
    );
}

#[test]
fn yield_hands_over_on_the_newcomers_boundary() {
    let clip = ClipId(1);
    let at = Frames(4 * BAR);

    let (state, fx) = step(
        SlotState::Playing { clip },
        SlotInput::Yield { at },
        &ctx(0),
    );
    assert_eq!(state, SlotState::QueuedStop { clip, at });
    assert!(fx.is_empty(), "handover fires on Advance");

    let (state, fx) = step(
        SlotState::QueuedPlay {
            clip,
            at: Frames(4 * BAR),
        },
        SlotInput::Yield { at },
        &ctx(0),
    );
    assert_eq!(state, SlotState::Stopped { clip });
    assert!(fx.is_empty());
}

#[test]
fn yield_leaves_unrelated_states_alone() {
    for state in [
        SlotState::Empty,
        SlotState::Stopped { clip: ClipId(1) },
        SlotState::Recording {
            started_at: Frames(0),
            ends_at: None,
        },
    ] {
        let (next, fx) = step(state, SlotInput::Yield { at: Frames(BAR) }, &ctx(0));
        assert_eq!(next, state);
        assert!(fx.is_empty());
    }
}

#[test]
fn stop_is_immediate_and_discards_a_recording() {
    let (state, fx) = step(
        SlotState::Recording {
            started_at: Frames(0),
            ends_at: None,
        },
        SlotInput::Stop,
        &ctx(BAR + 1),
    );
    assert_eq!(state, SlotState::Empty);
    assert_eq!(effects(fx), vec![Effect::CancelCapture]);

    let (state, fx) = step(
        SlotState::Playing { clip: ClipId(2) },
        SlotInput::Stop,
        &ctx(BAR + 1),
    );
    assert_eq!(state, SlotState::Stopped { clip: ClipId(2) });
    assert_eq!(
        effects(fx),
        vec![Effect::StopPlayback {
            at: Frames(BAR + 1)
        }]
    );
}

#[test]
fn clear_releases_the_clip() {
    let clip = ClipId(9);
    let (state, fx) = step(SlotState::Playing { clip }, SlotInput::Clear, &ctx(BAR));
    assert_eq!(state, SlotState::Empty);
    assert_eq!(
        effects(fx),
        vec![
            Effect::StopPlayback { at: Frames(BAR) },
            Effect::ReleaseClip { clip },
        ]
    );

    let (state, fx) = step(SlotState::Stopped { clip }, SlotInput::Clear, &ctx(BAR));
    assert_eq!(state, SlotState::Empty);
    assert_eq!(effects(fx), vec![Effect::ReleaseClip { clip }]);

    let (state, fx) = step(SlotState::Empty, SlotInput::Clear, &ctx(BAR));
    assert_eq!(state, SlotState::Empty);
    assert!(fx.is_empty());
}

#[test]
fn advance_is_idempotent_once_a_transition_has_fired() {
    let armed = SlotState::QueuedRecord { at: Frames(BAR) };
    let (state, _) = step(armed, SlotInput::Advance, &ctx(BAR));
    let (again, fx) = step(state, SlotInput::Advance, &ctx(BAR));
    assert_eq!(again, state);
    assert!(fx.is_empty(), "capture must not restart every block");
}

#[test]
fn a_list_of_effects_comes_back_as_it_went_in() {
    let all = [
        Effect::StopPlayback { at: Frames(3) },
        Effect::CancelCapture,
        Effect::ReleaseClip { clip: ClipId(7) },
    ];
    for count in 0..=all.len() {
        let list = Effects::from_iter(&all[..count]);
        assert_eq!(list.iter(), all[..count].to_vec());
        assert_eq!(list.len(), count);
        assert_eq!(list.is_empty(), count == 0);
        assert_eq!(list.get(count), None);
    }
}
