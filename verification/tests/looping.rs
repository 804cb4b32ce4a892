use std::collections::{HashMap, VecDeque};
use std::sync::{Arc, Mutex};

use free_loop::clip::{AudioBuffer, Clip, SegmentPool};
use free_loop::command::Command;
use free_loop::control::{Controller, Request, TextUpdate, Work, RESULT_FLASH};
use free_loop::device::{Nanos, SECOND};
use free_loop::engine::{Engine, EngineConfig, Housekeeping};
use free_loop::event::{Event, EventKind};
use free_loop::gain::UNITY_STEP;
use free_loop::ids::{SlotAddr, SlotId, TrackId, TrackInput};
use free_loop::lane::{lane, Inbox, Outbox};
use free_loop::looping::{
    describe_input, forward_clock, hand_over, has_to_publish, repaint, resolve_save, save_settings,
    take_session, Gathered, Looping, PendingSave, Restored, SaveOutcome, SaveSettings,
    TrackSettings, SAVE_TIMEOUT, TICK, XRUN_REPORT_EVERY,
};
use free_loop::mixer::Unheard;
use free_loop::process::Desk;
use free_loop::queue::drain;
use free_loop::recycle::Parcel;
use free_loop::reports::{lost_report, DroppedEvents};
use free_loop::screen::Mode;
use free_loop::slot::SlotState;
use free_loop::surface::{Control, LedColor, LedFrame, SurfaceEvent, PAUSE_SIDE, VOLUME_SIDE};
use free_loop::time::{Frames, Tempo, TimeSignature};

const DEADLINE: Nanos = 2 * SECOND;

fn tempo(bpm: f64) -> Tempo {
    Tempo::new(bpm.to_bits()).unwrap()
}

fn pad(track: u8, slot: u8) -> SlotAddr {
    SlotAddr::new(TrackId::new(track).unwrap(), SlotId::new(slot).unwrap())
}

fn controller() -> Controller {
    Controller::new(tempo(120.0), TimeSignature::four_four(), true)
}

fn track() -> TrackSettings {
    TrackSettings {
        input: TrackInput::Stereo,
        restart: false,
        pickup: 0,
        gain_step: UNITY_STEP,
    }
}

/// One session, kept in memory.
struct Saved {
    clips: Vec<(SlotAddr, Vec<f32>, bool)>,
    restored: Restored,
}

/// The audio side, with the engine the loop is really talking to.
///
/// Commands wait in a ring the way they do on the device, and only reach the engine
/// when [`FakeAudio::callback`] runs, which drains them before it processes a block.
/// That is the order the audio thread uses, and it is what a load has to survive.
struct FakeAudio {
    engine: Engine<f32>,
    out: Outbox<Command>,
    inbox: Inbox<Command>,
    /// Waiting for the next callback, as they would in the ring.
    ring: VecDeque<Command>,
    /// Commands it took, in the order it took them.
    taken: Vec<Command>,
    /// Reports the engine has made and the loop has not drained.
    reports: Vec<Event>,
    dropped: DroppedEvents,
}

impl FakeAudio {
    /// How many more it will take before the ring is full.
    fn room(&mut self, room: usize) {
        let (out, inbox) = lane(room);
        self.out = out;
        self.inbox = inbox;
    }

    fn collect(&mut self) {
        for command in drain(&mut self.inbox, 256) {
            self.taken.push(command);
            self.ring.push_back(command);
        }
    }

    /// One block of audio: the commands first, then the engine, which is where a load
    /// is applied.
    fn callback(&mut self) {
        let mut sink: Vec<Event> = Vec::new();
        while let Some(command) = self.ring.pop_front() {
            assert!(self.engine.obey(command, &mut sink));
        }
        let input = [0.0_f32; 128 * 2];
        let mut output = [0.0_f32; 128 * 2];
        self.engine
            .process(&input, &mut output, &mut Desk::new(Unheard), &mut sink);
        self.reports.extend(sink);
    }
}

/// What the surface was shown.
#[derive(Default)]
struct Shown {
    frames: Vec<LedFrame>,
    texts: Vec<Option<String>>,
}

/// Shows any frame, then any text.
fn show(shown: &mut Shown, controller: &mut Controller) {
    let (frame, text) = repaint(controller);
    shown.frames.extend(frame);
    match text {
        Some(TextUpdate::Show(text)) => shown.texts.push(Some(text)),
        Some(TextUpdate::Stop) => shown.texts.push(None),
        None => {}
    }
}

/// Everything a pass needs, held together so a test can drive one.
struct Harness {
    io: FakeAudio,
    pressed: Vec<SurfaceEvent>,
    shown: Shown,
    controller: Controller,
    housekeeping: Housekeeping<f32>,
    store: HashMap<usize, Saved>,
    state: Looping<f32>,
    at: Nanos,
}

impl Harness {
    fn new() -> Self {
        let Ok(mut config) = EngineConfig::stereo_48k() else {
            panic!("the defaults were refused");
        };
        config.segment_pool = 16;
        let Ok((engine, housekeeping)) = Engine::new(config, 0.0) else {
            panic!("the engine was refused");
        };
        let (out, inbox) = lane(256);
        Self {
            io: FakeAudio {
                engine,
                out,
                inbox,
                ring: VecDeque::new(),
                taken: Vec::new(),
                reports: Vec::new(),
                dropped: DroppedEvents::new(),
            },
            pressed: Vec::new(),
            shown: Shown::default(),
            controller: controller(),
            housekeeping,
            store: HashMap::new(),
            state: Looping::new(false),
            at: 0,
        }
    }

    fn index(&self) -> Vec<SlotAddr> {
        SlotAddr::all()
            .into_iter()
            .filter(|addr| self.store.contains_key(&addr.index()))
            .collect()
    }

    /// Writes a one-bar session to `addr` and tells the controller it is there.
    fn put_session(&mut self, addr: SlotAddr) {
        self.store.insert(
            addr.index(),
            Saved {
                clips: vec![(pad(0, 0), vec![0.25_f32; 4_800 * 2], true)],
                restored: Restored {
                    tracks: [track(); 8],
                    tempo: tempo(120.0),
                    time_signature: TimeSignature::four_four(),
                },
            },
        );
        self.controller.set_sessions(&self.index());
    }

    /// What the performer did, before the next pass picks it up.
    fn press(&mut self, event: SurfaceEvent) {
        self.pressed.push(event);
    }

    fn load(&mut self, addr: SlotAddr) {
        let saved = &self.store[&addr.index()];
        let loader = &mut self.housekeeping.loader;
        assert!(loader.ready());
        assert!(loader
            .begin(saved.restored.tempo, saved.restored.time_signature)
            .is_ok());
        for (at, audio, playing) in &saved.clips {
            let mut pool = SegmentPool::new(4, 2, 0.0);
            let mut buffer = AudioBuffer::new(4, 2, 0.0);
            buffer.write(0, audio, &mut pool);
            let frames = Frames(audio.len() as u64 / 2);
            let clip = Clip::new(buffer, frames, Frames(0), 2);
            let sent = loader.clip(*at, Parcel::new(Arc::new(clip)), *playing, None);
            assert!(sent.is_ok());
        }
        assert!(loader.end().is_ok());
        take_session(&mut self.controller, &saved.restored, addr, 2);
    }

    fn write(&mut self, addr: SlotAddr, settings: &SaveSettings) {
        let clips = self
            .state
            .snapshots
            .iter()
            .map(|snapshot| {
                let mut audio = vec![0.0; snapshot.clip.len().0 as usize * 2];
                snapshot.clip.copy_into(Frames(0), &mut audio);
                (snapshot.addr, audio, snapshot.state.is_sounding())
            })
            .collect();
        self.store.insert(
            addr.index(),
            Saved {
                clips,
                restored: Restored {
                    tracks: settings.tracks,
                    tempo: settings.tempo,
                    time_signature: settings.time_signature,
                },
            },
        );
    }

    /// Runs one pass, a tick later than the last.
    fn pass(&mut self) {
        self.at += TICK;
        let now = self.at;
        let pressed = core::mem::take(&mut self.pressed);
        let housekeeping = &mut self.housekeeping;
        self.state
            .begin_pass(&mut self.controller, &pressed, housekeeping, now);
        while let Some(request) =
            hand_over(&mut self.state.queued, self.state.loading, &mut self.io.out)
        {
            match request {
                Request::SaveSession(addr) => self.state.begin_save(addr, &self.controller, now),
                Request::LoadSession(addr) => {
                    self.load(addr);
                    self.state.loading = true;
                }
            }
            self.state.put_first(&mut self.controller);
        }
        self.io.collect();

        let reports = core::mem::take(&mut self.io.reports);
        let arrived = self.housekeeping.snapshots.drain();
        let settled =
            self.state
                .end_pass(&mut self.controller, &reports, self.io.dropped, arrived, now);
        match settled.outcome {
            SaveOutcome::Waiting => {}
            SaveOutcome::Answered(answered) => {
                if answered.is_whole() {
                    self.write(answered.addr, &answered.settings);
                    self.controller.session_saved(answered.addr, now);
                } else {
                    self.controller.save_failed(now);
                }
                self.state.snapshots.clear();
            }
            SaveOutcome::Expired(_) => {
                self.controller.save_failed(now);
                self.state.snapshots.clear();
            }
        }
        show(&mut self.shown, &mut self.controller);
    }

    /// Everything the engine has taken, ignoring the settings it starts with.
    fn taken(&self) -> Vec<Command> {
        self.io
            .taken
            .iter()
            .filter(|command| !matches!(command, Command::SetSettings(_)))
            .copied()
            .collect()
    }

    fn tap(&mut self, addr: SlotAddr) {
        self.press(SurfaceEvent::PadPressed {
            addr,
            velocity: 100,
        });
        self.press(SurfaceEvent::PadReleased { addr });
    }
}

fn dropped(counts: &[(EventKind, u64)]) -> DroppedEvents {
    let mut array = [0; EventKind::COUNT];
    for (kind, count) in counts {
        array[kind.index()] = *count;
    }
    DroppedEvents::of(array)
}

#[test]
fn the_startup_line_names_the_channels_the_route_ended_up_on() {
    assert_eq!(describe_input(TrackInput::Mono(0)), "input channel 0");
    assert_eq!(describe_input(TrackInput::Mono(5)), "input channel 5");
    assert_eq!(
        describe_input(TrackInput::Pair(0, 1)),
        "input channels 0 and 1"
    );
}

/// One turn of the run loop's handover: sends what fits, and returns the request that
/// surfaced for the caller to act on.
fn step(queued: &mut Vec<Work>, loading: bool, room: usize) -> (Vec<Command>, Option<Request>) {
    let (mut out, mut inbox) = lane(room);
    let surfaced = hand_over(queued, loading, &mut out);
    (drain(&mut inbox, 256), surfaced)
}

#[test]
fn a_gesture_reaches_the_engine_as_a_command() {
    let mut harness = Harness::new();
    let pad = pad(2, 3);

    harness.tap(pad);
    harness.pass();

    assert_eq!(harness.taken(), vec![Command::Press(pad)]);
}

#[test]
fn a_full_engine_takes_the_rest_on_a_later_pass_in_order() {
    let mut harness = Harness::new();
    let pad = pad(0, 0);
    // The settings the controller starts on go out first, and would take the room.
    harness.pass();
    harness.io.taken.clear();

    // Room for one, so the second waits without letting the third overtake it.
    harness.io.room(1);
    harness.press(SurfaceEvent::ControlPressed(Control::Rewind));
    harness.press(SurfaceEvent::ControlPressed(Control::StopAll));
    harness.tap(pad);
    harness.pass();
    assert_eq!(harness.taken(), vec![Command::Rewind], "one fitted");

    harness.io.room(256);
    harness.pass();
    assert_eq!(
        harness.taken(),
        vec![Command::Rewind, Command::StopAll, Command::Press(pad)],
        "the rest follow in the order they were made"
    );
}

#[test]
fn a_setting_reaches_the_engine_between_the_gestures_it_sits_between() {
    let mut harness = Harness::new();
    let loop_pad = pad(0, 0);
    let level = pad(1, 5);
    let volume = u8::try_from(VOLUME_SIDE).unwrap();

    // A press, then a level set on the volume screen, then another press.
    harness.tap(loop_pad);
    harness.press(SurfaceEvent::SidePressed { index: volume });
    harness.press(SurfaceEvent::PadPressed {
        addr: level,
        velocity: 100,
    });
    harness.press(SurfaceEvent::SidePressed { index: volume });
    harness.press(SurfaceEvent::ControlPressed(Control::Rewind));
    harness.pass();

    let kinds: Vec<&str> = harness
        .io
        .taken
        .iter()
        .map(|command| match command {
            Command::Press(_) => "press",
            Command::SetSettings(_) => "settings",
            Command::Rewind => "rewind",
            _ => "other",
        })
        .collect();
    assert_eq!(
        kinds,
        vec!["settings", "press", "settings", "rewind"],
        "the level lands between the two gestures, not before both"
    );
}

#[test]
fn a_load_reaches_the_engine_before_the_gesture_made_after_it() {
    let mut harness = Harness::new();
    let session = pad(3, 3);
    harness.put_session(session);
    harness.pass();
    harness.io.callback();
    harness.io.taken.clear();

    // One poll: the load is chosen, then the transport is pressed.
    harness.press(SurfaceEvent::ControlPressed(Control::LoadSession));
    harness.tap(session);
    harness.press(SurfaceEvent::SidePressed {
        index: u8::try_from(PAUSE_SIDE).unwrap(),
    });
    harness.pass();

    assert!(harness.state.loading, "the load is in its own channel");
    assert!(
        harness.taken().is_empty(),
        "the transport went in front of a load the engine has not applied"
    );

    // The callback applies the load, which is what frees the channel.
    harness.io.callback();
    harness.pass();
    assert!(!harness.state.loading, "the engine has taken it");
    assert_eq!(
        harness.taken(),
        vec![Command::SetPaused(true)],
        "and the transport follows it"
    );
}

#[test]
fn a_loaded_session_puts_its_clip_on_the_grid() {
    let mut harness = Harness::new();
    let session = pad(1, 1);
    harness.put_session(session);
    harness.pass();
    harness.io.callback();

    harness.press(SurfaceEvent::ControlPressed(Control::LoadSession));
    harness.tap(session);
    harness.pass();
    harness.io.callback();

    // The engine says what it now holds, and the controller paints from that.
    harness.pass();
    assert!(
        matches!(
            harness.controller.session().state(pad(0, 0)),
            SlotState::Playing { .. }
        ),
        "the clip the session held is on its pad"
    );
    assert_eq!(harness.controller.current_session(), Some(session));
}

#[test]
fn a_save_asks_the_engine_for_its_clips_and_writes_what_comes_back() {
    let mut harness = Harness::new();
    let source = pad(2, 2);
    let target = pad(4, 4);
    harness.put_session(source);
    harness.pass();
    harness.io.callback();

    // Load one, so there is something on the grid worth saving.
    harness.press(SurfaceEvent::ControlPressed(Control::LoadSession));
    harness.tap(source);
    harness.pass();
    harness.io.callback();
    harness.pass();

    // Save it somewhere else. An empty pad asks for no confirmation.
    harness.press(SurfaceEvent::ControlPressed(Control::SaveSession));
    harness.tap(target);
    harness.pass();
    assert!(
        harness
            .taken()
            .iter()
            .any(|command| matches!(command, Command::Snapshot { .. })),
        "the engine was asked for its clips"
    );

    // The engine publishes them, and the next passes write them out.
    harness.io.callback();
    for _ in 0..4 {
        harness.pass();
    }

    assert!(
        harness.index().contains(&target),
        "the session was written to the pad that was chosen"
    );
    assert_eq!(harness.controller.current_session(), Some(target));
    let written = &harness.store[&target.index()];
    assert_eq!(written.clips.len(), 1);
    assert_eq!(
        written.clips[0].1,
        harness.store[&source.index()].clips[0].1,
        "what is read back is what was written"
    );
    assert!(written.clips[0].2, "and it was playing");
}

#[test]
fn what_a_load_sets_reaches_the_engine_before_a_gesture_made_after_it() {
    let mut harness = Harness::new();
    let session = pad(3, 1);
    harness.put_session(session);
    harness.pass();
    harness.io.callback();
    harness.io.taken.clear();

    // One poll: the load is chosen, then a pad is pressed.
    harness.press(SurfaceEvent::ControlPressed(Control::LoadSession));
    harness.tap(session);
    // The transport, which is the one gesture that acts from the picker as well.
    harness.press(SurfaceEvent::SidePressed {
        index: u8::try_from(PAUSE_SIDE).unwrap(),
    });
    harness.pass();
    harness.io.callback();
    harness.pass();

    // The settings the session came with go in front of the gesture that followed it.
    let order: Vec<&str> = harness
        .io
        .taken
        .iter()
        .filter_map(|command| match command {
            Command::SetSettings(_) => Some("settings"),
            Command::SetPaused(_) => Some("paused"),
            _ => None,
        })
        .collect();
    assert_eq!(
        order,
        vec!["settings", "paused"],
        "the later gesture was applied before the session's own settings"
    );
}

#[test]
fn a_replay_asked_for_during_a_load_waits_for_it() {
    let mut harness = Harness::new();
    let session = pad(2, 6);
    harness.put_session(session);
    harness.pass();
    harness.io.callback();
    harness.io.taken.clear();

    harness.press(SurfaceEvent::ControlPressed(Control::LoadSession));
    harness.tap(session);
    harness.pass();
    assert!(harness.state.loading);

    // A report went missing, which asks the engine to say everything again.
    harness.io.dropped = dropped(&[(EventKind::SlotChanged, 1)]);
    harness.pass();
    assert!(
        !harness.taken().contains(&Command::Resync),
        "the replay was answered from in front of the load"
    );

    harness.io.callback();
    harness.pass();
    assert!(
        harness.taken().contains(&Command::Resync),
        "and follows once the engine has taken the load"
    );
}

#[test]
fn a_save_the_engine_never_answers_gives_up_rather_than_waiting() {
    let mut harness = Harness::new();
    let source = pad(2, 2);
    let target = pad(4, 4);
    harness.put_session(source);
    harness.pass();
    harness.io.callback();

    harness.press(SurfaceEvent::ControlPressed(Control::LoadSession));
    harness.tap(source);
    harness.pass();
    harness.io.callback();
    harness.pass();

    harness.press(SurfaceEvent::ControlPressed(Control::SaveSession));
    harness.tap(target);
    harness.pass();
    assert!(harness.state.pending_save.is_some(), "the save is waiting");

    // No callback: the engine takes the snapshot request and never publishes.
    harness.pass();
    assert!(
        harness.state.pending_save.is_some(),
        "still inside its wait"
    );

    harness.at += SAVE_TIMEOUT;
    harness.pass();
    assert!(harness.state.pending_save.is_none(), "the wait ended");
    assert!(!harness.index().contains(&target), "and wrote nothing");

    let frame = harness.shown.frames.last().unwrap();
    assert!(
        SlotAddr::all()
            .into_iter()
            .all(|addr| frame.pad(addr).color == LedColor::Red),
        "the grid says so"
    );
}

#[test]
fn a_report_from_the_engine_reaches_the_controller() {
    let mut harness = Harness::new();
    harness.io.reports.push(Event::Tempo { bpm: tempo(90.0) });

    harness.pass();
    assert_eq!(harness.controller.tempo(), tempo(90.0));
}

/// Tells a window which screen is showing, when it is not the one it was last told.
fn publish_screen(slot: Option<&Mutex<Mode>>, mode: Mode, published: Option<Mode>) -> Option<Mode> {
    if !has_to_publish(mode, published) {
        return published;
    }
    let Some(slot) = slot else {
        return Some(mode);
    };
    match slot.try_lock() {
        Ok(mut showing) => {
            *showing = mode;
            Some(mode)
        }
        Err(_) => published,
    }
}

#[test]
fn a_window_is_told_the_screen_only_when_it_changes() {
    let slot = Mutex::new(Mode::Perform);

    let published = publish_screen(Some(&slot), Mode::Mute, None);
    assert_eq!(published, Some(Mode::Mute));
    assert_eq!(*slot.lock().unwrap(), Mode::Mute);

    // Held by the window this pass, so nothing is known to have got through.
    let held = slot.lock().unwrap();
    assert_eq!(
        publish_screen(Some(&slot), Mode::Solo, published),
        published,
        "the next pass tries again"
    );
    drop(held);

    assert_eq!(
        publish_screen(Some(&slot), Mode::Solo, published),
        Some(Mode::Solo)
    );
    assert_eq!(*slot.lock().unwrap(), Mode::Solo);
}

#[test]
fn a_run_with_no_window_still_tracks_the_screen() {
    // Nothing to publish to, so it only remembers, and never asks again for the same.
    assert_eq!(publish_screen(None, Mode::Mute, None), Some(Mode::Mute));
    assert_eq!(
        publish_screen(None, Mode::Mute, Some(Mode::Mute)),
        Some(Mode::Mute)
    );
}

#[test]
fn a_load_waits_for_the_snapshot_of_the_save_before_it() {
    let pad = pad(1, 2);
    let mut queued = vec![
        Work::Request(Request::SaveSession(pad)),
        Work::Request(Request::LoadSession(pad)),
    ];

    // The save surfaces first, and its snapshot takes the place the request had.
    let (_, surfaced) = step(&mut queued, false, 8);
    assert_eq!(surfaced, Some(Request::SaveSession(pad)));
    queued.insert(0, Work::Command(Command::Snapshot { request: 1 }));

    // The load cannot start until that snapshot has gone: the audio side applies a
    // load after the commands it has taken, so it would commit first.
    let (taken, surfaced) = step(&mut queued, false, 0);
    assert!(taken.is_empty(), "no room for the snapshot yet");
    assert_eq!(surfaced, None, "so the load waits behind it");
    assert_eq!(queued.len(), 2, "and neither is lost");

    let (taken, surfaced) = step(&mut queued, false, 8);
    assert_eq!(taken, vec![Command::Snapshot { request: 1 }]);
    assert_eq!(surfaced, Some(Request::LoadSession(pad)));
}

#[test]
fn a_save_waits_for_the_load_in_front_of_it_to_commit() {
    let pad = pad(1, 2);
    let mut queued = vec![
        Work::Request(Request::SaveSession(pad)),
        Work::Command(Command::Press(pad)),
    ];

    // With a load in its channel, nothing behind it moves at all.
    let (taken, surfaced) = step(&mut queued, true, 8);
    assert!(taken.is_empty() && surfaced.is_none());
    assert_eq!(queued.len(), 2);

    let (_, surfaced) = step(&mut queued, false, 8);
    assert_eq!(
        surfaced,
        Some(Request::SaveSession(pad)),
        "once the engine has taken the load"
    );
}

#[test]
fn a_lost_signature_report_asks_the_engine_again() {
    // Both directions: the value and the refusal that takes an optimistic copy back.
    for kind in [EventKind::TimeSignature, EventKind::TimeSignatureRejected] {
        let lost = dropped(&[(kind, 1)]);
        assert!(
            lost.needs_resync(&DroppedEvents::new()),
            "{kind:?} should be asked for again"
        );
    }
}

#[test]
fn a_lost_beat_is_not_worth_asking_about() {
    let lost = dropped(&[(EventKind::Beat, 4)]);
    assert!(!lost.needs_resync(&DroppedEvents::new()));
}

#[test]
fn a_size_refusal_holds_the_red_before_it_scrolls() {
    let mut surface = Shown::default();
    let mut controller = controller();
    controller.load_failed(0, Some("2600".to_owned()));

    show(&mut surface, &mut controller);
    let frame = surface.frames.last().unwrap();
    assert!(
        SlotAddr::all().into_iter().all(|a| frame.pad(a).is_lit()),
        "the answer is on the grid"
    );
    assert!(surface.texts.is_empty(), "with nothing scrolling over it");

    controller.tick(RESULT_FLASH);
    show(&mut surface, &mut controller);
    assert_eq!(surface.texts, [Some("2600".to_owned())]);
}

#[test]
fn a_result_cuts_a_scroll_before_taking_the_grid() {
    let mut surface = Shown::default();
    let mut controller = controller();

    controller.on_surface(SurfaceEvent::ControlPressed(Control::TempoUp), 0);
    controller.on_surface(SurfaceEvent::ControlReleased(Control::TempoUp), 0);
    show(&mut surface, &mut controller);
    assert_eq!(surface.texts.len(), 1, "the bpm is scrolling");

    controller.session_saved(pad(0, 0), 0);
    show(&mut surface, &mut controller);
    assert_eq!(surface.texts.last(), Some(&None), "the scroll is stopped");

    show(&mut surface, &mut controller);
    let frame = surface.frames.last().unwrap();
    assert!(
        SlotAddr::all().into_iter().all(|a| frame.pad(a).is_lit()),
        "and the answer reaches the grid"
    );
}

#[test]
fn the_device_gets_the_pulses_it_has_not_had() {
    assert_eq!(forward_clock(Some(24), 0), (24, 24));
    assert_eq!(forward_clock(Some(30), 24), (6, 30), "the delta");
}

#[test]
fn a_dropped_clock_report_still_delivers_its_pulses() {
    // The report carrying 24 never arrived; the next one carries both.
    assert_eq!(forward_clock(Some(48), 0), (48, 48));
}

#[test]
fn a_pass_with_no_clock_report_sends_nothing() {
    assert_eq!(forward_clock(None, 17), (0, 17));
}

#[test]
fn a_lost_beat_does_not_cost_a_replay() {
    let seen = DroppedEvents::new();
    let now = dropped(&[(EventKind::Beat, 4), (EventKind::Clock, 2)]);

    assert!(!now.needs_resync(&seen), "both correct themselves");
    assert_eq!(lost_report(&now, &seen), "2 clock ticks, 4 beats");
}

#[test]
fn a_lost_slot_change_asks_for_a_replay() {
    let seen = dropped(&[(EventKind::Beat, 4)]);
    let now = dropped(&[(EventKind::Beat, 9), (EventKind::SlotChanged, 1)]);

    assert!(now.needs_resync(&seen));
    assert_eq!(lost_report(&now, &seen), "1 slot change, 5 beats");
}

#[test]
fn a_lost_tempo_refusal_asks_for_a_replay() {
    let now = dropped(&[(EventKind::TempoRejected, 1)]);
    assert!(
        now.needs_resync(&DroppedEvents::new()),
        "a resync republishes the tempo the engine is actually at"
    );
}

fn waiting(request: u32) -> PendingSave {
    PendingSave {
        deadline: DEADLINE,
        request,
        addr: pad(1, 2),
        settings: SaveSettings {
            tempo: tempo(120.0),
            time_signature: TimeSignature::four_four(),
            tracks: [track(); 8],
        },
    }
}

#[test]
fn a_save_with_no_answer_yet_keeps_waiting() {
    let mut pending = Some(waiting(1));
    let outcome = resolve_save(&mut pending, None, SECOND);

    assert!(matches!(outcome, SaveOutcome::Waiting));
    assert!(pending.is_some(), "still expecting its answer");
}

#[test]
fn an_answer_to_this_save_finishes_it() {
    let mut pending = Some(waiting(7));
    let outcome = resolve_save(&mut pending, Some((7, 3, 3)), SECOND);

    let answered = match outcome {
        SaveOutcome::Answered(answered) => answered,
        other => unreachable!("expected an answer, got {other:?}"),
    };
    assert_eq!(answered.addr, pad(1, 2));
    assert_eq!((answered.clips, answered.expected), (3, 3));
    assert!(pending.is_none(), "no longer pending");
}

#[test]
fn an_answer_to_a_superseded_save_is_not_this_one() {
    let mut pending = Some(waiting(9));
    let outcome = resolve_save(&mut pending, Some((8, 3, 3)), SECOND);

    assert!(matches!(outcome, SaveOutcome::Waiting));
    assert!(pending.is_some(), "still expecting request nine");
}

#[test]
fn a_save_whose_answer_never_came_expires() {
    let mut pending = Some(waiting(1));
    let outcome = resolve_save(&mut pending, None, DEADLINE);

    assert!(matches!(outcome, SaveOutcome::Expired(addr) if addr == pad(1, 2)));
    assert!(pending.is_none(), "given up on");
}

/// The answer cannot be asked for again, so it has to win.
#[test]
fn an_answer_arriving_on_the_deadline_still_wins() {
    let mut pending = Some(waiting(4));
    let outcome = resolve_save(&mut pending, Some((4, 2, 2)), DEADLINE);

    assert!(
        matches!(outcome, SaveOutcome::Answered(_)),
        "written, not abandoned"
    );
}

#[test]
fn short_capture_is_mentioned_now_and_then() {
    let mut gathered = Gathered::new();
    assert_eq!(gathered.note(0, XRUN_REPORT_EVERY, XRUN_REPORT_EVERY), None);
    assert_eq!(gathered.note(128, SECOND, XRUN_REPORT_EVERY), None);
    assert_eq!(
        gathered.note(128, XRUN_REPORT_EVERY, XRUN_REPORT_EVERY),
        Some(256)
    );
    assert_eq!(
        gathered.note(1, XRUN_REPORT_EVERY + SECOND, XRUN_REPORT_EVERY),
        None,
        "too soon after the last line"
    );
}

#[test]
fn a_save_records_what_the_controller_has_set() {
    let mut controller = controller();
    controller.set_gains([1, 2, 3, 4, 5, 6, 7, 0]);
    controller.set_pickups([0, 1, 2, 3, 0, 0, 0, 0]);
    let settings = save_settings(&controller);
    assert_eq!(settings.tempo, tempo(120.0));
    assert_eq!(settings.tracks[6].gain_step, 7);
    assert_eq!(settings.tracks[3].pickup, 3);
    assert!(!settings.tracks[3].restart);
}

#[test]
fn a_session_from_a_wider_interface_falls_back() {
    let mut controller = controller();
    let mut tracks = [track(); 8];
    tracks[0].input = TrackInput::Mono(5);
    tracks[1].input = TrackInput::Pair(0, 3);
    tracks[2].input = TrackInput::Mono(1);
    let restored = Restored {
        tracks,
        tempo: tempo(90.0),
        time_signature: TimeSignature::four_four(),
    };
    take_session(&mut controller, &restored, pad(2, 2), 2);
    assert_eq!(controller.inputs()[0], TrackInput::Mono(0));
    assert_eq!(controller.inputs()[1], TrackInput::Stereo);
    assert_eq!(controller.inputs()[2], TrackInput::Mono(1));
    assert_eq!(controller.tempo(), tempo(90.0));
    assert!(controller.paused());
}

#[test]
fn a_load_holds_everything_back_until_it_is_taken() {
    let mut state: Looping<f32> = Looping::new(true);
    state.begin_load();
    assert!(state.loading);
    let mut queued = vec![Work::Command(Command::StopAll)];
    let (sent, surfaced) = step(&mut queued, state.loading, 4);
    assert!(sent.is_empty() && surfaced.is_none());
    assert_eq!(queued.len(), 1);
}
