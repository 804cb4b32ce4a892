use free_loop::command::Command;
use free_loop::control::{
    Controller, Request, TextUpdate, Work, CLICK_HOLD, RESULT_FLASH, TEMPO_HOLD_DELAY,
    TEMPO_HOLD_INTERVAL, TEXT_DURATION,
};
use free_loop::device::Nanos;
use free_loop::event::Event;
use free_loop::gain::UNITY_STEP;
use free_loop::grid::Subdivision;
use free_loop::ids::{
    column_mask, row_mask, ClipId, LaunchMode, Polyphony, SlotAddr, SlotId, TrackId, TrackInput,
    SLOT_COUNT, TRACK_COUNT,
};
use free_loop::paint::control_led;
use free_loop::pan::CENTRE_STEP;
use free_loop::screen::{
    exits, Button, Mode, BEATS_ROW, PICKUP_COLUMN, POLYPHONY_COLUMN, SUBDIVISION_ROW, UNIT_ROW,
};
use free_loop::settings::Settings;
use free_loop::slot::SlotState;
use free_loop::surface::{
    Control, Led, LedColor, LedStyle, SurfaceEvent, FIRST_BEAT_LED, INPUT_SIDE, MUTE_SIDE,
    NEW_SIDE, PAN_SIDE, PAUSE_SIDE, SETTINGS_SIDE, SOLO_SIDE, VOLUME_SIDE,
};
use free_loop::time::{Frames, Tempo, TimeSignature, MAX_BPM, MIN_BPM};

/// The colour of everything waiting on a press.
const SELECTED: LedColor = LedColor::Yellow;

/// The colour of a silenced pad.
const MUTED: LedColor = LedColor::Purple;

fn tempo(bpm: f64) -> Tempo {
    Tempo::new(bpm.to_bits()).unwrap()
}

fn bpm(controller: &Controller) -> f64 {
    f64::from_bits(controller.tempo().bpm())
}

const T0: Nanos = 0;

fn addr(track: u8, slot: u8) -> SlotAddr {
    SlotAddr::new(TrackId::new(track).unwrap(), SlotId::new(slot).unwrap())
}

fn controller() -> Controller {
    Controller::new(tempo(120.0), TimeSignature::four_four(), true)
}

/// The commands the controller has asked for, in order, ignoring any request.
fn commands(controller: &mut Controller) -> Vec<Command> {
    controller
        .drain_work()
            .into_iter()
        .filter_map(|work| match work {
            Work::Command(Command::SetSettings(_)) | Work::Request(_) => None,
            Work::Command(command) => Some(command),
        })
        .collect()
}

/// The settings the controller has ready for the engine, which must have moved.
/// The settings the controller has asked for, which must have moved.
fn settings(controller: &mut Controller) -> Settings {
    offered(controller).expect("the settings moved")
}

/// The latest settings in everything asked for, if any moved.
fn offered(controller: &mut Controller) -> Option<Settings> {
    controller
        .drain_work()
            .into_iter()
        .filter_map(|work| match work {
            Work::Command(Command::SetSettings(settings)) => Some(settings),
            _ => None,
        })
        .next_back()
}

fn millis(value: u64) -> Nanos {
    Nanos::from(value) * 1_000_000
}

fn press(controller: &mut Controller, pad: SlotAddr, at: Nanos) {
    controller.on_surface(
        SurfaceEvent::PadPressed {
            addr: pad,
            velocity: 100,
        },
        at,
    );
}

#[test]
fn a_tap_acts_on_release() {
    let mut controller = controller();
    let pad = addr(2, 3);

    press(&mut controller, pad, T0);
    assert!(
        commands(&mut controller).is_empty(),
        "a press could still turn into a hold"
    );

    controller.on_surface(SurfaceEvent::PadReleased { addr: pad }, millis(80));
    assert_eq!(commands(&mut controller), vec![Command::Press(pad)]);
}

fn side(index: usize) -> SurfaceEvent {
    SurfaceEvent::SidePressed {
        index: u8::try_from(index).unwrap(),
    }
}

#[test]
fn muting_silences_the_whole_row() {
    let mut controller = controller();
    controller.on_surface(side(MUTE_SIDE), T0);
    press(&mut controller, addr(2, 0), T0);

    let settings = settings(&mut controller);
    assert_eq!(settings.muted, row_mask(TrackId::new(2).unwrap()));
    assert_eq!(settings.soloed, 0);
}

#[test]
fn settings_are_offered_once_until_they_move_again() {
    let mut controller = controller();
    assert!(
        offered(&mut controller).is_some(),
        "the engine is told what it starts on"
    );
    assert_eq!(offered(&mut controller), None);

    controller.on_surface(side(MUTE_SIDE), T0);
    press(&mut controller, addr(0, 0), T0);
    assert!(offered(&mut controller).is_some());
    assert_eq!(offered(&mut controller), None);
}

#[test]
fn only_the_latest_settings_are_offered() {
    let mut controller = controller();
    controller.on_surface(side(VOLUME_SIDE), T0);
    press(&mut controller, addr(1, 2), T0);
    press(&mut controller, addr(1, 6), T0);

    assert_eq!(
        settings(&mut controller).gains[1],
        6,
        "not the level in between"
    );
    assert_eq!(offered(&mut controller), None);
}

#[test]
fn the_grouping_can_be_flipped_from_the_screen_it_groups() {
    let mut controller = controller();
    controller.on_surface(side(MUTE_SIDE), T0);

    // The axis says what a pad in this screen silences, so it belongs on it.
    controller.on_surface(SurfaceEvent::ControlPressed(Control::Axis), T0);
    press(&mut controller, addr(2, 5), T0);

    let settings = settings(&mut controller);
    assert_eq!(settings.muted, column_mask(SlotId::new(5).unwrap()));
    assert_eq!(controller.mode(), Mode::Mute, "and does not leave it");
}

#[test]
fn the_axis_button_switches_to_columns() {
    let mut controller = controller();
    controller.on_surface(SurfaceEvent::ControlPressed(Control::Axis), T0);
    controller.on_surface(side(MUTE_SIDE), T0);
    press(&mut controller, addr(2, 5), T0);

    let settings = settings(&mut controller);
    assert_eq!(settings.muted, column_mask(SlotId::new(5).unwrap()));
    assert_eq!(settings.soloed, 0);
}

#[test]
fn pressing_a_silenced_group_frees_it() {
    let mut controller = controller();
    controller.on_surface(side(MUTE_SIDE), T0);
    press(&mut controller, addr(2, 0), T0);
    settings(&mut controller);

    press(&mut controller, addr(2, 4), T0);
    assert_eq!(
        settings(&mut controller).muted,
        0,
        "any pad in the group frees the group"
    );
}

#[test]
fn a_screen_darkens_the_buttons_it_has_no_use_for() {
    let mut controller = controller();
    controller.on_surface(side(MUTE_SIDE), T0);
    let frame = controller.take_frame().unwrap();

    // Only the grouping belongs up there, plus the button the beat shares.
    for control in Control::all() {
        if control.index() == FIRST_BEAT_LED || control == Control::Axis {
            continue;
        }
        assert!(
            !frame.control(control.index()).is_lit(),
            "{control:?} is still offering itself"
        );
    }
    assert!(
        frame.control(Control::Axis.index()).is_lit(),
        "grouping stays"
    );
    for index in [VOLUME_SIDE, INPUT_SIDE, SETTINGS_SIDE, SOLO_SIDE, NEW_SIDE] {
        assert!(!frame.side(index).is_lit(), "side {index} is still lit");
    }
    assert!(frame.side(PAUSE_SIDE).is_lit(), "the transport stays");
}

#[test]
fn a_screen_shows_the_way_out_of_it() {
    let mut settings = controller();
    settings.on_surface(side(SETTINGS_SIDE), T0);
    let frame = settings.take_frame().unwrap();
    assert_eq!(frame.side(SETTINGS_SIDE), Led::flash(SELECTED));

    // The signature screen takes both tempo buttons to leave, so both say so.
    let mut signature = controller();
    signature.on_surface(SurfaceEvent::ControlPressed(Control::TempoUp), T0);
    signature.on_surface(SurfaceEvent::ControlPressed(Control::TempoDown), T0);
    let frame = signature.take_frame().unwrap();
    assert_eq!(
        frame.control(Control::TempoDown.index()),
        Led::flash(SELECTED)
    );
}

#[test]
fn the_beat_still_shows_from_another_screen() {
    let mut controller = controller();
    controller.on_surface(side(MUTE_SIDE), T0);
    controller.on_engine(Event::Beat { bar: 0, beat: 0 }, T0);

    let frame = controller.take_frame().unwrap();
    assert_eq!(
        frame.control(FIRST_BEAT_LED),
        Led::solid(LedColor::Red),
        "the downbeat, even on a screen that owns nothing else up there"
    );
}

#[test]
fn the_signature_screen_can_be_left_after_a_take_seals() {
    let mut controller = controller();
    open_signature(&mut controller);
    assert_eq!(controller.mode(), Mode::TimeSignature);

    // A take seals while the screen is open, which locks the tempo and the signature.
    controller.on_engine(
        Event::SlotChanged {
            addr: addr(0, 0),
            state: SlotState::Stopped { clip: ClipId(0) },
        },
        T0,
    );

    // The way out must not be lockable: it is the only button that acts here.
    open_signature(&mut controller);
    assert_eq!(
        controller.mode(),
        Mode::Perform,
        "stuck on the signature screen with no way back"
    );
}

/// The gesture that opens a screen.
type Opening = fn(&mut Controller);

/// Does whatever leaves the screen showing: all of its buttons down, then up.
///
/// All down before any up: a screen taking two of them wants them held together.
fn press_the_way_out(controller: &mut Controller) {
    let (first, second) = exits(controller.mode());
    let ways: Vec<Button> = first.into_iter().chain(second).collect();
    for button in &ways {
        match button {
            Button::Top(control) => {
                controller.on_surface(SurfaceEvent::ControlPressed(*control), T0);
            }
            Button::Side(index) => controller.on_surface(side(*index), T0),
            Button::Grid(addr) => press(controller, *addr, T0),
        }
    }
    for button in &ways {
        if let Button::Top(control) = button {
            controller.on_surface(SurfaceEvent::ControlReleased(*control), T0);
        }
    }
}

#[test]
fn every_screen_can_be_left_even_with_a_take_on_the_grid() {
    // A clip locks the tempo and the signature, which must not lock a way out.
    let openings: Vec<(&str, Opening)> = vec![
        ("mute", |c| c.on_surface(side(MUTE_SIDE), T0)),
        ("solo", |c| c.on_surface(side(SOLO_SIDE), T0)),
        ("volume", |c| c.on_surface(side(VOLUME_SIDE), T0)),
        ("input", |c| c.on_surface(side(INPUT_SIDE), T0)),
        ("settings", |c| c.on_surface(side(SETTINGS_SIDE), T0)),
        ("save", |c| {
            c.on_surface(SurfaceEvent::ControlPressed(Control::SaveSession), T0);
        }),
        ("load", |c| {
            c.on_surface(SurfaceEvent::ControlPressed(Control::LoadSession), T0);
        }),
        ("signature", open_signature),
        ("click rate", |c| {
            c.on_surface(SurfaceEvent::ControlPressed(Control::ClickToggle), T0);
            c.tick(T0 + CLICK_HOLD);
            c.on_surface(
                SurfaceEvent::ControlReleased(Control::ClickToggle),
                T0 + CLICK_HOLD,
            );
        }),
    ];

    for (name, open) in openings {
        let mut controller = controller();
        open(&mut controller);
        assert_ne!(controller.mode(), Mode::Perform, "{name} did not open");

        // The take seals while the screen is open, which is the only way to be on one
        // that the lock could otherwise strand.
        controller.on_engine(
            Event::SlotChanged {
                addr: addr(0, 0),
                state: SlotState::Stopped { clip: ClipId(0) },
            },
            T0,
        );

        // Twice over: a confirm screen steps back to its picker before the loops.
        press_the_way_out(&mut controller);
        press_the_way_out(&mut controller);
        assert_eq!(controller.mode(), Mode::Perform, "{name} could not be left");
    }
}

#[test]
fn a_change_of_screen_cuts_text_short_rather_than_waiting_it_out() {
    let mut controller = controller();

    // A tempo tap puts its number on the grid.
    controller.on_surface(SurfaceEvent::ControlPressed(Control::TempoUp), T0);
    controller.on_surface(SurfaceEvent::ControlReleased(Control::TempoUp), T0);
    let _ = controller.take_frame();
    assert!(matches!(controller.take_text(), Some(TextUpdate::Show(_))));
    assert!(controller.take_frame().is_none(), "the text has the grid");

    // Moving to another screen must not leave the last one's buttons lit and inert.
    controller.on_surface(side(MUTE_SIDE), T0);
    assert!(
        controller.take_frame().is_none(),
        "still the text this pass"
    );
    assert_eq!(controller.take_text(), Some(TextUpdate::Stop));

    let frame = controller.take_frame().expect("the mute screen goes out");
    assert_eq!(frame.side(MUTE_SIDE), Led::flash(SELECTED));
    assert!(
        !frame.control(Control::StopAll.index()).is_lit(),
        "and the loops' buttons are dark on it"
    );
}

#[test]
fn a_repeating_gauge_does_not_paint_over_the_next_screen() {
    let mut controller = controller();

    // Held long enough to start climbing, and only then does another screen open.
    // Tempo down, since tempo up shares its button with the beat.
    controller.on_surface(SurfaceEvent::ControlPressed(Control::TempoDown), T0);
    controller.tick(T0 + TEMPO_HOLD_DELAY + TEMPO_HOLD_INTERVAL);
    assert!(controller.take_frame().is_some(), "the gauge is up");

    controller.on_surface(side(MUTE_SIDE), T0);
    let frame = controller.take_frame().expect("the mute screen goes out");
    assert!(
        !frame.pad(addr(0, 0)).is_lit(),
        "the gauge is still filling a grid whose pads now mute instead"
    );
    assert!(
        !frame.control(Control::TempoDown.index()).is_lit(),
        "and the held button is offering itself on a screen it does nothing on"
    );
}

#[test]
fn a_hold_does_not_outlive_the_screen_it_started_on() {
    let mut controller = controller();

    // Held down, then another finger opens a screen where this button means nothing.
    controller.on_surface(SurfaceEvent::ControlPressed(Control::TempoUp), T0);
    controller.on_surface(SurfaceEvent::ControlPressed(Control::SaveSession), T0);
    controller.on_surface(SurfaceEvent::ControlReleased(Control::TempoUp), T0);

    let settled = bpm(&controller);
    controller.tick(T0 + TEMPO_HOLD_DELAY + TEMPO_HOLD_INTERVAL * 4);
    assert_eq!(
        bpm(&controller),
        settled,
        "the tempo ran away after the button was let go"
    );
}

#[test]
fn a_click_hold_does_not_open_its_screen_from_another() {
    let mut controller = controller();

    controller.on_surface(SurfaceEvent::ControlPressed(Control::ClickToggle), T0);
    controller.on_surface(side(MUTE_SIDE), T0);
    controller.tick(T0 + CLICK_HOLD);

    assert_eq!(
        controller.mode(),
        Mode::Mute,
        "a hold from the loops reached across into the click screen"
    );
}

#[test]
fn a_screen_cannot_be_left_by_the_button_of_another() {
    let mut controller = controller();
    controller.on_surface(side(MUTE_SIDE), T0);

    // Volume, settings and solo are all out of reach until mute is left.
    for index in [VOLUME_SIDE, SETTINGS_SIDE, SOLO_SIDE] {
        controller.on_surface(side(index), T0);
        assert_eq!(controller.mode(), Mode::Mute, "side {index} let it out");
    }
    controller.on_surface(side(MUTE_SIDE), T0);
    assert_eq!(controller.mode(), Mode::Perform);
}

#[test]
fn the_transport_answers_from_another_screen() {
    let mut controller = controller();
    controller.on_surface(side(VOLUME_SIDE), T0);
    let _ = commands(&mut controller);

    controller.on_surface(side(PAUSE_SIDE), T0);
    assert_eq!(commands(&mut controller), vec![Command::SetPaused(true)]);
    assert_eq!(controller.mode(), Mode::Volume, "and stays on the screen");
}

#[test]
fn mute_and_solo_are_kept_apart() {
    let mut controller = controller();
    controller.on_surface(side(MUTE_SIDE), T0);
    press(&mut controller, addr(0, 0), T0);
    settings(&mut controller);

    // Out of mute before solo opens: one screen cannot be reached from another.
    controller.on_surface(side(MUTE_SIDE), T0);
    controller.on_surface(side(SOLO_SIDE), T0);
    press(&mut controller, addr(1, 0), T0);

    let settings = settings(&mut controller);
    assert_eq!(settings.muted, row_mask(TrackId::new(0).unwrap()));
    assert_eq!(settings.soloed, row_mask(TrackId::new(1).unwrap()));
}

#[test]
fn the_grid_keeps_showing_the_loops_while_choosing_a_group() {
    let mut controller = controller();
    controller.on_engine(
        Event::SlotChanged {
            addr: addr(0, 0),
            state: SlotState::Playing { clip: ClipId(0) },
        },
        T0,
    );
    let playing = controller.take_frame().unwrap().pad(addr(0, 0));

    controller.on_surface(side(MUTE_SIDE), T0);
    let frame = controller.take_frame().expect("the mode changed");
    assert_eq!(
        frame.pad(addr(0, 0)),
        playing,
        "opening mute must not blank what the loops are doing"
    );
    assert_eq!(
        frame.side(MUTE_SIDE).style,
        LedStyle::Flash
    );
}

#[test]
fn a_silenced_row_shows_on_the_grid_without_the_mode_open() {
    let mut controller = controller();
    controller.on_engine(
        Event::SlotChanged {
            addr: addr(0, 0),
            state: SlotState::Playing { clip: ClipId(0) },
        },
        T0,
    );

    controller.on_surface(side(MUTE_SIDE), T0);
    press(&mut controller, addr(0, 0), T0);
    controller.on_surface(side(MUTE_SIDE), T0);
    assert_eq!(controller.mode(), Mode::Perform);

    let frame = controller.take_frame().unwrap();
    assert_eq!(
        frame.pad(addr(0, 0)),
        Led::pulse(MUTED),
        "still playing, still silenced, and both are visible"
    );
    assert_eq!(
        frame.pad(addr(0, 7)),
        Led::dim(MUTED),
        "and the rest of the row is lit so the group reads as one"
    );
}

#[test]
fn a_pad_in_the_mute_screen_does_not_touch_the_loops() {
    let mut controller = controller();
    controller.on_surface(side(MUTE_SIDE), T0);
    press(&mut controller, addr(0, 0), T0);

    let sent = commands(&mut controller);
    assert!(!sent.iter().any(|c| matches!(c, Command::Press(_))));

    controller.tick(millis(2_000));
    assert!(
        commands(&mut controller).is_empty(),
        "and cannot empty a pad by holding"
    );
}

#[test]
fn the_mute_screen_closes_on_a_second_press() {
    let mut controller = controller();
    controller.on_surface(side(MUTE_SIDE), T0);
    assert_eq!(controller.mode(), Mode::Mute);

    controller.on_surface(side(MUTE_SIDE), T0);
    assert_eq!(controller.mode(), Mode::Perform);
}

#[test]
fn a_column_sets_the_level_for_its_row() {
    let mut controller = controller();
    controller.on_surface(side(VOLUME_SIDE), T0);
    press(&mut controller, addr(2, 6), T0);

    let mut expected = [UNITY_STEP; TRACK_COUNT];
    expected[2] = 6;
    assert_eq!(controller.gains(), expected);
    assert_eq!(settings(&mut controller).gains, expected);
}

#[test]
fn a_level_press_does_not_launch_the_pad() {
    let mut controller = controller();
    controller.on_surface(side(VOLUME_SIDE), T0);
    press(&mut controller, addr(0, 0), T0);

    let sent = commands(&mut controller);
    assert!(!sent.iter().any(|c| matches!(c, Command::Press(_))));

    controller.tick(millis(2_000));
    assert!(commands(&mut controller).is_empty(), "and cannot empty it");
}

#[test]
fn the_levels_show_as_a_bar_per_row() {
    let mut controller = controller();
    controller.on_surface(side(VOLUME_SIDE), T0);
    press(&mut controller, addr(1, 5), T0);

    let frame = controller.take_frame().unwrap();
    assert!(frame.pad(addr(1, 0)).is_lit(), "the bottom of the bar");
    assert!(frame.pad(addr(1, 5)).is_lit(), "up to the level");
    assert!(!frame.pad(addr(1, 6)).is_lit(), "and no further");
}

#[test]
fn a_fresh_session_puts_every_level_back() {
    let mut controller = controller();
    controller.on_surface(side(VOLUME_SIDE), T0);
    press(&mut controller, addr(0, 1), T0);
    controller.on_surface(side(VOLUME_SIDE), T0);
    commands(&mut controller);

    controller.on_surface(SurfaceEvent::ControlPressed(Control::LoadSession), T0);
    controller.on_surface(side(NEW_SIDE), T0);

    assert_eq!(controller.gains(), [UNITY_STEP; TRACK_COUNT]);
}

#[test]
fn a_loaded_session_brings_its_levels() {
    let mut controller = controller();
    let mut gains = [UNITY_STEP; TRACK_COUNT];
    gains[4] = 1;

    controller.set_gains(gains);
    assert_eq!(controller.gains(), gains);
    assert_eq!(settings(&mut controller).gains, gains);
}

#[test]
fn a_fresh_session_empties_everything() {
    let mut controller = controller();
    controller.on_engine(
        Event::SlotChanged {
            addr: addr(0, 0),
            state: SlotState::Playing { clip: ClipId(0) },
        },
        T0,
    );
    controller.on_surface(side(MUTE_SIDE), T0);
    press(&mut controller, addr(0, 0), T0);
    controller.on_surface(side(MUTE_SIDE), T0);
    controller.session_loaded(addr(2, 2), true);
    commands(&mut controller);

    controller.on_surface(SurfaceEvent::ControlPressed(Control::LoadSession), T0);
    controller.on_surface(side(NEW_SIDE), T0);

    assert_eq!(controller.mode(), Mode::Perform);
    assert_eq!(controller.current_session(), None, "nothing to save over");
    assert!(!controller.paused(), "ready to record straight away");

    let (sent, settings, _) = work(&mut controller);
    assert!(sent.contains(&Command::ClearAll));
    assert_eq!(settings, Some(Settings::new()));

    let frame = controller.take_frame().unwrap();
    assert!(
        SlotAddr::all().into_iter().all(|a| !frame.pad(a).is_lit()),
        "an empty grid"
    );
}

#[test]
fn a_fresh_session_goes_back_to_the_configured_tempo() {
    let mut controller = controller();
    controller.on_surface(SurfaceEvent::ControlPressed(Control::TempoUp), T0);
    controller.on_surface(SurfaceEvent::ControlReleased(Control::TempoUp), millis(50));
    assert_eq!(bpm(&controller), 121.0);
    commands(&mut controller);

    controller.on_surface(SurfaceEvent::ControlPressed(Control::LoadSession), T0);
    controller.on_surface(side(NEW_SIDE), T0);

    assert_eq!(bpm(&controller), 120.0);

    let sent = commands(&mut controller);
    let clear = sent.iter().position(|c| *c == Command::ClearAll);
    let tempo = sent.iter().position(|c| matches!(c, Command::SetTempo(_)));
    assert!(
        clear < tempo,
        "the tempo is locked until the clips are gone"
    );
}

#[test]
fn a_fresh_session_is_only_offered_from_the_load_picker() {
    let mut controller = controller();
    controller.on_surface(side(NEW_SIDE), T0);
    assert!(commands(&mut controller).is_empty(), "not while playing");

    controller.on_surface(SurfaceEvent::ControlPressed(Control::SaveSession), T0);
    controller.on_surface(side(NEW_SIDE), T0);
    assert!(
        commands(&mut controller).is_empty(),
        "and not from the save picker"
    );
}

#[test]
fn everything_waiting_on_a_press_flashes_the_same_colour() {
    let mut controller = controller();

    controller.on_surface(side(SOLO_SIDE), T0);
    assert_eq!(
        controller.take_frame().unwrap().side(SOLO_SIDE),
        Led::flash(SELECTED)
    );
    controller.on_surface(side(SOLO_SIDE), T0);

    controller.on_surface(SurfaceEvent::ControlPressed(Control::SaveSession), T0);
    assert_eq!(
        controller
            .take_frame()
            .unwrap()
            .control(Control::SaveSession.index()),
        Led::flash(SELECTED)
    );
}

#[test]
fn a_held_tempo_button_shows_that_it_is_held() {
    let mut controller = controller();
    controller.on_surface(SurfaceEvent::ControlPressed(Control::TempoUp), T0);

    let frame = controller.take_frame().expect("the button changed");
    assert_eq!(
        frame.control(Control::TempoUp.index()),
        Led::solid(SELECTED),
        "steady while simply pressed"
    );
    assert_ne!(frame.control(Control::TempoDown.index()).color, SELECTED);

    controller.tick(millis(400));
    let frame = controller.take_frame().expect("it started repeating");
    assert_eq!(
        frame.control(Control::TempoUp.index()),
        Led::flash(SELECTED),
        "and blinks once it repeats"
    );

    controller.on_surface(SurfaceEvent::ControlReleased(Control::TempoUp), millis(500));

    // The frame that clears the button goes out before the number takes the grid.
    let frame = controller.take_frame().expect("the button was let go");
    assert_ne!(
        frame.control(Control::TempoUp.index()).color,
        SELECTED,
        "the button stops showing as held the moment it is released"
    );

    controller.take_text();
    controller.tick(millis(500) + TEXT_DURATION);
    controller.take_text();
    assert!(controller.take_frame().is_some(), "and the grid comes back");
}

#[test]
fn the_rewind_button_sends_the_transport_back() {
    let mut controller = controller();
    controller.on_surface(SurfaceEvent::ControlPressed(Control::Rewind), T0);
    assert_eq!(commands(&mut controller), vec![Command::Rewind]);
}

#[test]
fn the_unbound_side_buttons_do_nothing() {
    let mut controller = controller();
    for index in 0..8 {
        if usize::from(index) == PAUSE_SIDE {
            continue;
        }
        controller.on_surface(SurfaceEvent::SidePressed { index }, T0);
    }
    controller.on_surface(SurfaceEvent::ControlReleased(Control::StopAll), T0);
    assert!(commands(&mut controller).is_empty());
}

#[test]
fn the_transport_button_toggles_the_freeze() {
    let mut controller = controller();
    let button = u8::try_from(PAUSE_SIDE).unwrap();
    assert!(!controller.paused());

    controller.on_surface(SurfaceEvent::SidePressed { index: button }, T0);
    assert!(controller.paused());
    assert_eq!(commands(&mut controller), vec![Command::SetPaused(true)]);

    controller.on_surface(SurfaceEvent::SidePressed { index: button }, T0);
    assert!(!controller.paused());
    assert_eq!(commands(&mut controller), vec![Command::SetPaused(false)]);
}

#[test]
fn the_transport_button_shows_the_freeze() {
    let mut controller = controller();
    let running = controller.take_frame().unwrap().side(PAUSE_SIDE);

    controller.on_surface(
        SurfaceEvent::SidePressed {
            index: u8::try_from(PAUSE_SIDE).unwrap(),
        },
        T0,
    );
    let frozen = controller.take_frame().expect("the button changed");
    assert_ne!(frozen.side(PAUSE_SIDE), running);
}

/// Everything asked for, split by kind, for a test that wants more than one of them.
fn work(controller: &mut Controller) -> (Vec<Command>, Option<Settings>, Vec<Request>) {
    let mut commands = Vec::new();
    let mut settings = None;
    let mut requests = Vec::new();
    for item in controller.drain_work() {
        match item {
            Work::Command(Command::SetSettings(latest)) => settings = Some(latest),
            Work::Command(command) => commands.push(command),
            Work::Request(request) => requests.push(request),
        }
    }
    (commands, settings, requests)
}

/// The requests the controller has made, in order, ignoring any command.
fn requests(controller: &mut Controller) -> Vec<Request> {
    controller
        .drain_work()
            .into_iter()
        .filter_map(|work| match work {
            Work::Request(request) => Some(request),
            Work::Command(_) => None,
        })
        .collect()
}

#[test]
fn the_save_button_toggles_the_picker() {
    let mut controller = controller();
    assert_eq!(controller.mode(), Mode::Perform);

    controller.on_surface(SurfaceEvent::ControlPressed(Control::SaveSession), T0);
    assert_eq!(controller.mode(), Mode::SavePicker);

    controller.on_surface(SurfaceEvent::ControlPressed(Control::SaveSession), T0);
    assert_eq!(controller.mode(), Mode::Perform, "pressing again backs out");
}

#[test]
fn a_pad_in_the_picker_asks_for_a_save_rather_than_playing() {
    let mut controller = controller();
    controller.on_surface(SurfaceEvent::ControlPressed(Control::SaveSession), T0);
    press(&mut controller, addr(2, 3), T0);

    let (commands, _, requests) = work(&mut controller);
    assert!(
        commands.is_empty(),
        "a pad in the picker must not touch the loops"
    );
    assert_eq!(requests, vec![Request::SaveSession(addr(2, 3))]);
}

#[test]
fn a_picker_press_cannot_start_a_hold() {
    let mut controller = controller();
    controller.on_surface(SurfaceEvent::ControlPressed(Control::SaveSession), T0);
    press(&mut controller, addr(0, 0), T0);
    requests(&mut controller);

    controller.tick(millis(2_000));
    assert!(
        commands(&mut controller).is_empty(),
        "choosing where to save must not empty a pad"
    );
}

#[test]
fn the_load_button_opens_its_own_picker() {
    let mut controller = controller();
    controller.on_surface(SurfaceEvent::ControlPressed(Control::LoadSession), T0);
    assert_eq!(controller.mode(), Mode::LoadPicker);

    controller.on_surface(SurfaceEvent::ControlPressed(Control::LoadSession), T0);
    assert_eq!(controller.mode(), Mode::Perform);
}

#[test]
fn one_picker_is_left_before_the_other_opens() {
    let mut controller = controller();
    controller.on_surface(SurfaceEvent::ControlPressed(Control::SaveSession), T0);

    // The load button is not part of the save picker, so it does nothing there.
    controller.on_surface(SurfaceEvent::ControlPressed(Control::LoadSession), T0);
    assert_eq!(controller.mode(), Mode::SavePicker);

    controller.on_surface(SurfaceEvent::ControlPressed(Control::SaveSession), T0);
    controller.on_surface(SurfaceEvent::ControlPressed(Control::LoadSession), T0);
    assert_eq!(controller.mode(), Mode::LoadPicker);
}

#[test]
fn loading_an_empty_pad_asks_for_nothing() {
    let mut controller = controller();
    controller.set_sessions(&vec![addr(1, 1)]);
    controller.on_surface(SurfaceEvent::ControlPressed(Control::LoadSession), T0);

    press(&mut controller, addr(0, 0), T0);
    assert!(
        requests(&mut controller).is_empty(),
        "nothing is saved there"
    );

    press(&mut controller, addr(1, 1), T0);
    assert_eq!(
        requests(&mut controller),
        vec![Request::LoadSession(addr(1, 1))]
    );
}

#[test]
fn a_completed_load_leaves_the_picker_frozen() {
    let mut controller = controller();
    controller.set_sessions(&vec![addr(2, 2)]);
    controller.on_surface(SurfaceEvent::ControlPressed(Control::LoadSession), T0);
    controller.session_loaded(addr(2, 2), true);

    assert_eq!(controller.mode(), Mode::Perform);
    assert_eq!(controller.current_session(), Some(addr(2, 2)));
    assert!(controller.paused(), "a loaded session waits to be started");
}

#[test]
fn a_failed_request_still_leaves_the_picker() {
    let mut controller = controller();
    controller.on_surface(SurfaceEvent::ControlPressed(Control::LoadSession), T0);
    controller.cancel_picker();
    assert_eq!(controller.mode(), Mode::Perform);
}

/// The pad that answers yes, and the one that answers no.
fn yes() -> SlotAddr {
    addr(0, 0)
}
fn no() -> SlotAddr {
    addr(0, u8::try_from(SLOT_COUNT - 1).unwrap())
}

#[test]
fn saving_over_a_session_asks_first() {
    let mut controller = controller();
    controller.set_sessions(&vec![addr(1, 1)]);
    controller.on_surface(SurfaceEvent::ControlPressed(Control::SaveSession), T0);
    press(&mut controller, addr(1, 1), T0);

    assert!(
        requests(&mut controller).into_iter().next().is_none(),
        "nothing is written until it is answered"
    );
    let frame = controller.take_frame().unwrap();
    assert!(frame.pad(yes()).is_lit() && frame.pad(no()).is_lit());
    assert!(
        SlotAddr::all()
            .into_iter()
            .filter(|a| *a != yes() && *a != no())
            .all(|a| !frame.pad(a).is_lit()),
        "and nothing else can be pressed by mistake"
    );
}

#[test]
fn yes_writes_over_it_and_no_does_not() {
    let mut controller = controller();
    controller.set_sessions(&vec![addr(1, 1)]);

    controller.on_surface(SurfaceEvent::ControlPressed(Control::SaveSession), T0);
    press(&mut controller, addr(1, 1), T0);
    press(&mut controller, no(), T0);
    assert!(
        requests(&mut controller).into_iter().next().is_none(),
        "no means no"
    );
    assert_eq!(controller.mode(), Mode::Perform);

    controller.on_surface(SurfaceEvent::ControlPressed(Control::SaveSession), T0);
    press(&mut controller, addr(1, 1), T0);
    press(&mut controller, yes(), T0);
    assert_eq!(
        requests(&mut controller).into_iter().next(),
        Some(Request::SaveSession(addr(1, 1))),
        "and the pad asked about is the pad written"
    );
}

#[test]
fn saving_onto_an_empty_pad_asks_nothing() {
    let mut controller = controller();
    controller.on_surface(SurfaceEvent::ControlPressed(Control::SaveSession), T0);
    press(&mut controller, addr(3, 3), T0);

    assert_eq!(
        requests(&mut controller).into_iter().next(),
        Some(Request::SaveSession(addr(3, 3))),
        "there is nothing to lose"
    );
}

#[test]
fn loading_over_a_grid_that_holds_something_asks_first() {
    let mut controller = controller();
    controller.set_sessions(&vec![addr(1, 1)]);
    controller.on_engine(
        Event::SlotChanged {
            addr: addr(0, 0),
            state: SlotState::Playing { clip: ClipId(0) },
        },
        T0,
    );

    controller.on_surface(SurfaceEvent::ControlPressed(Control::LoadSession), T0);
    press(&mut controller, addr(1, 1), T0);
    assert!(requests(&mut controller).into_iter().next().is_none());

    press(&mut controller, yes(), T0);
    assert_eq!(
        requests(&mut controller).into_iter().next(),
        Some(Request::LoadSession(addr(1, 1)))
    );
}

#[test]
fn loading_onto_an_empty_grid_asks_nothing() {
    let mut controller = controller();
    controller.set_sessions(&vec![addr(1, 1)]);
    controller.on_surface(SurfaceEvent::ControlPressed(Control::LoadSession), T0);
    press(&mut controller, addr(1, 1), T0);

    assert_eq!(
        requests(&mut controller).into_iter().next(),
        Some(Request::LoadSession(addr(1, 1))),
        "nothing on the grid to lose"
    );
}

#[test]
fn a_completed_save_leaves_the_picker_and_marks_the_session() {
    let mut controller = controller();
    controller.on_surface(SurfaceEvent::ControlPressed(Control::SaveSession), T0);
    controller.session_saved(addr(1, 1), T0);

    assert_eq!(controller.mode(), Mode::Perform);
    assert_eq!(controller.current_session(), Some(addr(1, 1)));
}

#[test]
fn a_saved_session_turns_the_grid_green() {
    let mut controller = controller();
    controller.session_saved(addr(1, 1), T0);

    let frame = controller.take_frame().unwrap();
    assert!(
        SlotAddr::all().into_iter().all(|a| frame.pad(a) == Led::solid(LedColor::Green)),
        "the whole grid answers"
    );
}

#[test]
fn a_failed_save_turns_the_grid_red_and_leaves_the_picker() {
    let mut controller = controller();
    controller.on_surface(SurfaceEvent::ControlPressed(Control::SaveSession), T0);
    controller.save_failed(T0);

    assert_eq!(controller.mode(), Mode::Perform);
    assert_eq!(controller.current_session(), None, "nothing was written");

    let frame = controller.take_frame().unwrap();
    assert!(SlotAddr::all().into_iter().all(|a| frame.pad(a) == Led::solid(LedColor::Red)));
}

#[test]
fn a_failed_load_scrolls_its_code_only_once_the_red_has_been_held() {
    let mut controller = controller();
    controller.on_surface(SurfaceEvent::ControlPressed(Control::LoadSession), T0);
    controller.load_failed(T0, Some("2600".to_owned()));

    assert_eq!(controller.mode(), Mode::Perform);
    assert_eq!(controller.take_text(), None, "nothing over the answer yet");

    controller.tick(T0 + RESULT_FLASH);
    assert_eq!(
        controller.take_text(),
        Some(TextUpdate::Show("2600".to_owned())),
        "the pool size the session needs"
    );
}

#[test]
fn the_pickup_setting_cycles_through_its_degrees() {
    let mut controller = controller();
    controller.on_surface(SurfaceEvent::SidePressed { index: 3 }, T0);
    let pad = SlotAddr::new(TrackId::new(2).unwrap(), SlotId::new(1).unwrap());
    let press = SurfaceEvent::PadPressed {
        addr: pad,
        velocity: 127,
    };

    // Off, then one degree per beat the tail can stand in for, then back.
    for beats in [1, 2, 3, 0] {
        controller.on_surface(press, T0);
        assert_eq!(controller.pickups()[2], beats);
    }
    assert_eq!(settings(&mut controller).pickups[2], 0);
}

#[test]
fn a_refused_take_turns_the_grid_red() {
    let mut controller = controller();
    controller.on_engine(Event::RecordingRefused { addr: addr(3, 2) }, T0);

    let frame = controller.take_frame().unwrap();
    assert!(
        SlotAddr::all().into_iter().all(|a| frame.pad(a) == Led::solid(LedColor::Red)),
        "the session is full, not that one pad"
    );
}

#[test]
fn every_pad_refused_on_one_boundary_answers_once() {
    let mut controller = controller();
    for slot in 0..3 {
        controller.on_engine(
            Event::RecordingRefused {
                addr: addr(0, slot),
            },
            T0,
        );
    }

    controller.take_frame();
    controller.tick(T0 + RESULT_FLASH);
    let frame = controller.take_frame().unwrap();
    assert!(
        SlotAddr::all().into_iter().all(|a| !frame.pad(a).is_lit()),
        "one answer, not three in a row"
    );
}

#[test]
fn a_lost_device_says_so_without_a_flash_first() {
    let mut controller = controller();
    controller.device_lost(T0);

    assert_eq!(
        controller.take_text(),
        Some(TextUpdate::Show("NO AUDIO".to_owned())),
        "the word is the whole answer"
    );
}

#[test]
fn a_result_cuts_text_that_is_already_scrolling() {
    let mut controller = controller();
    controller.on_surface(SurfaceEvent::ControlPressed(Control::TempoUp), T0);
    controller.on_surface(SurfaceEvent::ControlReleased(Control::TempoUp), T0);
    assert!(matches!(controller.take_text(), Some(TextUpdate::Show(_))));

    controller.session_saved(addr(0, 0), T0);
    assert_eq!(
        controller.take_text(),
        Some(TextUpdate::Stop),
        "or the scroll would suppress every frame until it finished"
    );
}

#[test]
fn a_failed_load_with_nothing_to_read_only_flashes() {
    let mut controller = controller();
    controller.load_failed(T0, None);

    assert_eq!(controller.take_text(), None);
    let frame = controller.take_frame().unwrap();
    assert!(SlotAddr::all().into_iter().all(|a| frame.pad(a) == Led::solid(LedColor::Red)));
}

#[test]
fn the_grid_comes_back_after_the_flash() {
    let mut controller = controller();
    controller.session_saved(addr(1, 1), T0);
    controller.take_frame();

    controller.tick(T0 + RESULT_FLASH / 2);
    assert!(controller.take_frame().is_none(), "still answering");

    controller.tick(T0 + RESULT_FLASH);
    let frame = controller.take_frame().unwrap();
    assert!(SlotAddr::all().into_iter().all(|a| !frame.pad(a).is_lit()), "the loops");
}

#[test]
fn the_picker_shows_the_sessions_it_was_told_about() {
    let mut controller = controller();
    controller.set_sessions(&vec![addr(0, 1), addr(3, 4)]);
    controller.on_surface(SurfaceEvent::ControlPressed(Control::SaveSession), T0);

    let frame = controller.take_frame().expect("the picker opened");
    assert!(frame.pad(addr(0, 1)).is_lit());
    assert!(frame.pad(addr(3, 4)).is_lit());
    assert!(!frame.pad(addr(7, 7)).is_lit());
}

#[test]
fn the_picker_hides_the_loops() {
    let mut controller = controller();
    controller.on_engine(
        Event::SlotChanged {
            addr: addr(0, 0),
            state: SlotState::Playing { clip: ClipId(0) },
        },
        T0,
    );
    controller.take_frame();

    controller.on_surface(SurfaceEvent::ControlPressed(Control::SaveSession), T0);
    let frame = controller.take_frame().expect("the picker opened");
    assert!(
        !frame.pad(addr(0, 0)).is_lit(),
        "an empty session pad must not look like a playing loop"
    );
}

#[test]
fn commands_are_taken_once() {
    let mut controller = controller();
    controller.on_surface(SurfaceEvent::ControlPressed(Control::StopAll), T0);
    assert_eq!(commands(&mut controller), vec![Command::StopAll]);
    assert!(commands(&mut controller).is_empty());
}

#[test]
fn the_click_toggle_tracks_its_own_state() {
    let mut controller = controller();
    let tap = |controller: &mut Controller| {
        controller.on_surface(SurfaceEvent::ControlPressed(Control::ClickToggle), T0);
        controller.on_surface(SurfaceEvent::ControlReleased(Control::ClickToggle), T0);
    };

    tap(&mut controller);
    assert!(!controller.click_enabled());
    assert_eq!(
        commands(&mut controller),
        vec![Command::SetClickEnabled(false)]
    );

    tap(&mut controller);
    assert!(controller.click_enabled());
    assert_eq!(
        commands(&mut controller),
        vec![Command::SetClickEnabled(true)]
    );
}

#[test]
fn holding_the_click_button_opens_its_page_without_toggling() {
    let mut controller = controller();
    controller.on_surface(SurfaceEvent::ControlPressed(Control::ClickToggle), T0);
    controller.tick(T0 + CLICK_HOLD);

    let subdivision_row = u8::try_from(SUBDIVISION_ROW).unwrap();
    let frame = controller.take_frame().unwrap();
    assert!(
        frame.pad(addr(subdivision_row, 0)).is_lit(),
        "the page opened"
    );

    controller.on_surface(
        SurfaceEvent::ControlReleased(Control::ClickToggle),
        T0 + CLICK_HOLD,
    );
    assert!(controller.click_enabled(), "the click was left alone");
    assert!(commands(&mut controller).is_empty());
}

#[test]
fn the_click_button_closes_its_own_page() {
    let mut controller = controller();
    controller.on_surface(SurfaceEvent::ControlPressed(Control::ClickToggle), T0);
    controller.tick(T0 + CLICK_HOLD);
    controller.on_surface(
        SurfaceEvent::ControlReleased(Control::ClickToggle),
        T0 + CLICK_HOLD,
    );
    let _ = controller.take_frame();

    // A tap on the way out neither toggles the click nor leaves the page behind.
    let later = T0 + CLICK_HOLD * 2;
    controller.on_surface(SurfaceEvent::ControlPressed(Control::ClickToggle), later);
    controller.on_surface(SurfaceEvent::ControlReleased(Control::ClickToggle), later);
    assert!(controller.click_enabled(), "still on");
    assert!(commands(&mut controller).is_empty());

    // Back on the loops, so a pad is a pad again.
    let pad = addr(0, 0);
    press(&mut controller, pad, later);
    controller.on_surface(SurfaceEvent::PadReleased { addr: pad }, later);
    assert_eq!(commands(&mut controller), vec![Command::Press(pad)]);
}

#[test]
fn a_rate_the_bar_cannot_take_is_not_selectable() {
    let mut controller = controller();
    controller.set_loaded_time_signature(TimeSignature::new(3, 4).unwrap());
    controller.on_surface(SurfaceEvent::ControlPressed(Control::ClickToggle), T0);
    controller.tick(T0 + CLICK_HOLD);
    controller.on_surface(
        SurfaceEvent::ControlReleased(Control::ClickToggle),
        T0 + CLICK_HOLD,
    );
    let _ = commands(&mut controller);

    // Halves do not divide a three beat bar.
    let row = u8::try_from(SUBDIVISION_ROW).unwrap();
    press(&mut controller, addr(row, 1), T0);
    assert!(
        commands(&mut controller).is_empty(),
        "nothing was asked for"
    );
    assert_eq!(controller.subdivision(), Subdivision::Quarter);

    // Eighths do.
    press(&mut controller, addr(row, 5), T0);
    assert_eq!(
        commands(&mut controller),
        vec![Command::SetClickSubdivision(Subdivision::Eighth)]
    );
}

#[test]
fn a_signature_that_breaks_the_rate_falls_back_to_the_quarter() {
    let mut controller = controller();
    controller.on_surface(SurfaceEvent::ControlPressed(Control::ClickToggle), T0);
    controller.tick(T0 + CLICK_HOLD);
    controller.on_surface(
        SurfaceEvent::ControlReleased(Control::ClickToggle),
        T0 + CLICK_HOLD,
    );

    let row = u8::try_from(SUBDIVISION_ROW).unwrap();
    press(&mut controller, addr(row, 2), T0);
    assert_eq!(controller.subdivision(), Subdivision::HalfTriplet);
    let _ = commands(&mut controller);

    // Three beats cannot be cut into three halves.
    controller.set_loaded_time_signature(TimeSignature::new(3, 4).unwrap());
    assert_eq!(controller.subdivision(), Subdivision::Quarter);
    assert_eq!(
        commands(&mut controller),
        vec![Command::SetClickSubdivision(Subdivision::Quarter)],
        "one click a beat, which a quarter is in 3/4"
    );
}

#[test]
fn the_click_page_works_with_clips_on_the_grid() {
    let mut controller = controller();
    controller.on_engine(
        Event::SlotChanged {
            addr: addr(0, 0),
            state: SlotState::Stopped { clip: ClipId(0) },
        },
        T0,
    );
    controller.on_surface(SurfaceEvent::ControlPressed(Control::ClickToggle), T0);
    controller.tick(T0 + CLICK_HOLD);
    controller.on_surface(
        SurfaceEvent::ControlReleased(Control::ClickToggle),
        T0 + CLICK_HOLD,
    );
    let _ = commands(&mut controller);

    // Unlike the tempo and the signature, nothing here is bound to a recording.
    let subdivision_row = u8::try_from(SUBDIVISION_ROW).unwrap();
    press(&mut controller, addr(subdivision_row, 7), T0);

    assert_eq!(
        commands(&mut controller),
        vec![Command::SetClickSubdivision(Subdivision::Sixteenth)]
    );
    assert_eq!(
        controller.take_text(),
        Some(TextUpdate::Show("1/16".to_owned()))
    );
}

#[test]
fn tempo_moves_by_one_beat_per_press() {
    let mut controller = controller();
    let tap = |controller: &mut Controller, button| {
        controller.on_surface(SurfaceEvent::ControlPressed(button), T0);
        controller.on_surface(SurfaceEvent::ControlReleased(button), T0);
    };

    tap(&mut controller, Control::TempoUp);
    assert_eq!(bpm(&controller), 121.0);

    tap(&mut controller, Control::TempoDown);
    tap(&mut controller, Control::TempoDown);
    assert_eq!(bpm(&controller), 119.0);
    assert_eq!(commands(&mut controller).len(), 3);
}

#[test]
fn a_tap_moves_one_beat_and_shows_it() {
    let mut controller = controller();
    controller.on_surface(SurfaceEvent::ControlPressed(Control::TempoUp), T0);
    controller.on_surface(SurfaceEvent::ControlReleased(Control::TempoUp), millis(80));

    assert_eq!(bpm(&controller), 121.0);
    assert_eq!(
        controller.take_text(),
        Some(TextUpdate::Show("121".to_owned()))
    );
}

#[test]
fn a_locked_tempo_is_reported_rather_than_changed() {
    let mut controller = controller();
    controller.on_engine(
        Event::SlotChanged {
            addr: addr(0, 0),
            state: SlotState::Stopped { clip: ClipId(0) },
        },
        T0,
    );

    controller.on_surface(SurfaceEvent::ControlPressed(Control::TempoUp), T0);

    assert_eq!(bpm(&controller), 120.0, "locked, so it does not move");
    assert!(
        commands(&mut controller).is_empty(),
        "asking the engine to do what it will refuse is noise"
    );
    assert_eq!(
        controller.take_text(),
        Some(TextUpdate::Show("120".to_owned()))
    );
}

#[test]
fn a_locked_tempo_does_not_start_a_repeat() {
    let mut controller = controller();
    controller.on_engine(
        Event::SlotChanged {
            addr: addr(0, 0),
            state: SlotState::Stopped { clip: ClipId(0) },
        },
        T0,
    );

    controller.on_surface(SurfaceEvent::ControlPressed(Control::TempoUp), T0);
    for at in (0..2_000).step_by(20) {
        controller.tick(millis(at));
    }
    assert_eq!(bpm(&controller), 120.0);
}

#[test]
fn a_tap_that_moves_nothing_says_nothing() {
    let mut controller = Controller::new(Tempo::new(MAX_BPM).unwrap(), TimeSignature::four_four(), true);
    controller.on_surface(SurfaceEvent::ControlPressed(Control::TempoUp), T0);
    controller.on_surface(SurfaceEvent::ControlReleased(Control::TempoUp), millis(80));
    assert_eq!(controller.take_text(), None);
}

#[test]
fn a_rolled_back_tempo_takes_its_number_down_with_it() {
    let mut controller = controller();
    controller.on_surface(SurfaceEvent::ControlPressed(Control::TempoUp), T0);
    controller.on_surface(SurfaceEvent::ControlReleased(Control::TempoUp), millis(80));
    controller.take_text();

    controller.on_engine(Event::TempoRejected, T0);
    assert_eq!(bpm(&controller), 120.0);
    assert_eq!(
        controller.take_text(),
        Some(TextUpdate::Stop),
        "the number on the grid is no longer the tempo"
    );
}

#[test]
fn a_hold_shows_the_tempo_climbing() {
    let mut controller = controller();
    controller.take_frame();
    controller.on_surface(SurfaceEvent::ControlPressed(Control::TempoUp), T0);

    controller.tick(millis(400));
    let lit_at_first = {
        let frame = controller.take_frame().expect("the gauge appeared");
        SlotAddr::all().into_iter().filter(|a| frame.pad(*a).is_lit()).count()
    };

    for at in (520..1_200).step_by(120) {
        controller.tick(millis(at));
    }
    let frame = controller.take_frame().expect("the gauge moved");
    let lit_later = SlotAddr::all().into_iter().filter(|a| frame.pad(*a).is_lit()).count();

    assert!(
        lit_later > lit_at_first,
        "the fill should show the tempo climbing"
    );
}

#[test]
fn the_grid_comes_back_when_the_hold_ends() {
    let mut controller = controller();
    controller.on_engine(
        Event::SlotChanged {
            addr: addr(0, 0),
            state: SlotState::Playing { clip: ClipId(0) },
        },
        T0,
    );
    controller.on_surface(SurfaceEvent::ControlPressed(Control::TempoUp), T0);
    controller.tick(millis(400));
    controller.take_frame();

    controller.on_surface(SurfaceEvent::ControlReleased(Control::TempoUp), millis(500));
    controller.take_text();
    controller.tick(millis(500) + TEXT_DURATION);
    controller.take_text();

    let frame = controller.take_frame().expect("the loops are back");
    assert_eq!(frame.pad(addr(0, 0)), Led::pulse(LedColor::Green));
}

#[test]
fn a_short_hold_does_not_start_repeating() {
    let mut controller = controller();
    controller.on_surface(SurfaceEvent::ControlPressed(Control::TempoUp), T0);
    for at in (0..400).step_by(20) {
        controller.tick(millis(at));
    }
    assert_eq!(bpm(&controller), 121.0, "just the tap");
}

#[test]
fn a_device_loss_freezes_the_transport() {
    let mut controller = controller();
    assert!(!controller.paused());

    controller.pause();
    assert!(controller.paused(), "and the grid says so");
    assert!(commands(&mut controller).contains(&Command::SetPaused(true)));
}

#[test]
fn a_device_loss_while_already_paused_changes_nothing() {
    let mut controller = controller();
    controller.pause();
    let _ = commands(&mut controller);

    controller.pause();
    assert!(
        commands(&mut controller).is_empty(),
        "no second pause to send"
    );
}

#[test]
fn a_loaded_tempo_reaches_the_display_without_a_second_command() {
    let mut controller = controller();
    let _ = commands(&mut controller);

    controller.set_loaded_tempo(tempo(90.0));
    assert_eq!(bpm(&controller), 90.0);
    assert!(
        commands(&mut controller).is_empty(),
        "the engine took it from the load itself"
    );
}

#[test]
fn both_tempo_buttons_open_the_signature_page_and_undo_the_nudge() {
    let mut controller = controller();
    controller.on_surface(SurfaceEvent::ControlPressed(Control::TempoUp), T0);
    assert_eq!(bpm(&controller), 121.0);

    controller.on_surface(SurfaceEvent::ControlPressed(Control::TempoDown), T0);
    assert_eq!(bpm(&controller), 120.0, "the nudge is put back");

    // What an engine ends up on, not just what the display says.
    let asked = commands(&mut controller);
    let tempo = asked.iter().rev().find_map(|command| match command {
        Command::SetTempo(tempo) => Some(f64::from_bits(tempo.bpm())),
        _ => None,
    });
    assert_eq!(
        tempo,
        Some(120.0),
        "the last word is the tempo it started on"
    );

    let frame = controller.take_frame().unwrap();
    let beats_row = u8::try_from(BEATS_ROW).unwrap();
    assert!(
        frame.pad(addr(beats_row, 0)).is_lit(),
        "the page is showing"
    );
}

#[test]
fn a_nudge_already_sent_is_corrected_rather_than_left() {
    let mut controller = controller();
    controller.on_surface(SurfaceEvent::ControlPressed(Control::TempoUp), T0);
    // Drained, so the engine has the nudge and it cannot be taken back.
    assert_eq!(
        commands(&mut controller),
        vec![Command::SetTempo(tempo(121.0))]
    );

    controller.on_surface(SurfaceEvent::ControlPressed(Control::TempoDown), T0);
    assert_eq!(
        commands(&mut controller),
        vec![Command::SetTempo(tempo(120.0))],
        "a correction follows it"
    );
}

/// Opens the signature page.
fn open_signature(controller: &mut Controller) {
    controller.on_surface(SurfaceEvent::ControlPressed(Control::TempoUp), T0);
    controller.on_surface(SurfaceEvent::ControlPressed(Control::TempoDown), T0);
    controller.on_surface(SurfaceEvent::ControlReleased(Control::TempoUp), T0);
    controller.on_surface(SurfaceEvent::ControlReleased(Control::TempoDown), T0);
}

#[test]
fn each_number_takes_effect_as_it_is_pressed() {
    let mut controller = controller();
    open_signature(&mut controller);
    let _ = commands(&mut controller);
    let beats_row = u8::try_from(BEATS_ROW).unwrap();
    let unit_row = u8::try_from(UNIT_ROW).unwrap();

    // Three beats to the bar, then an eighth-note beat.
    press(&mut controller, addr(beats_row, 2), T0);
    assert_eq!(
        controller.time_signature(),
        TimeSignature::new(3, 4).unwrap()
    );
    assert_eq!(
        controller.take_text(),
        Some(TextUpdate::Show("3/4".to_owned()))
    );

    press(&mut controller, addr(unit_row, 2), T0);
    assert_eq!(
        controller.time_signature(),
        TimeSignature::new(3, 8).unwrap()
    );
    assert_eq!(
        controller.take_text(),
        Some(TextUpdate::Show("3/8".to_owned()))
    );

    assert_eq!(
        commands(&mut controller),
        vec![
            Command::SetTimeSignature(TimeSignature::new(3, 4).unwrap()),
            Command::SetTimeSignature(TimeSignature::new(3, 8).unwrap()),
        ],
        "each press is heard rather than held back"
    );

    // A quarter click cannot tile three eighths, but nothing moves until the engine
    // confirms which grid it ended up on.
    controller.on_engine(
        Event::TimeSignature {
            beats_per_bar: 3,
            beat_unit: 8,
        },
        T0,
    );
    assert_eq!(
        commands(&mut controller),
        vec![Command::SetClickSubdivision(Subdivision::Eighth)]
    );
}

#[test]
fn the_same_gesture_closes_the_page() {
    let mut controller = controller();
    open_signature(&mut controller);
    let beats_row = u8::try_from(BEATS_ROW).unwrap();
    press(&mut controller, addr(beats_row, 2), T0);

    open_signature(&mut controller);
    let _ = commands(&mut controller);

    // Back on the loops, so a pad is a pad again.
    press(&mut controller, addr(beats_row, 2), T0);
    controller.on_surface(
        SurfaceEvent::PadReleased {
            addr: addr(beats_row, 2),
        },
        T0,
    );
    assert_eq!(
        commands(&mut controller),
        vec![Command::Press(addr(beats_row, 2))]
    );
    assert_eq!(
        controller.time_signature(),
        TimeSignature::new(3, 4).unwrap(),
        "what was chosen stands"
    );
}

#[test]
fn a_clip_landing_on_the_open_page_locks_it() {
    let mut controller = controller();
    open_signature(&mut controller);

    // A take sealing while the page is open is the only way to reach this.
    controller.on_engine(
        Event::SlotChanged {
            addr: addr(0, 0),
            state: SlotState::Stopped { clip: ClipId(0) },
        },
        T0,
    );
    let _ = commands(&mut controller);

    let beats_row = u8::try_from(BEATS_ROW).unwrap();
    press(&mut controller, addr(beats_row, 6), T0);

    assert_eq!(controller.time_signature(), TimeSignature::four_four());
    assert_eq!(
        controller.take_text(),
        Some(TextUpdate::Show("4/4".to_owned()))
    );
    assert!(
        commands(&mut controller).is_empty(),
        "nothing was asked for"
    );
}

#[test]
fn the_page_does_not_open_once_a_clip_exists() {
    let mut controller = controller();
    controller.on_engine(
        Event::SlotChanged {
            addr: addr(0, 0),
            state: SlotState::Stopped { clip: ClipId(0) },
        },
        T0,
    );
    let _ = commands(&mut controller);
    let _ = controller.take_text();

    open_signature(&mut controller);
    let beats_row = u8::try_from(BEATS_ROW).unwrap();
    press(&mut controller, addr(beats_row, 2), T0);
    controller.on_surface(
        SurfaceEvent::PadReleased {
            addr: addr(beats_row, 2),
        },
        T0,
    );

    assert_eq!(
        commands(&mut controller),
        vec![Command::Press(addr(beats_row, 2))],
        "the pad is still a loop, since the locked tempo only reported"
    );
}

#[test]
fn a_dropped_signature_command_is_put_right_by_a_resync() {
    let mut controller = controller();
    open_signature(&mut controller);
    let beats_row = u8::try_from(BEATS_ROW).unwrap();
    press(&mut controller, addr(beats_row, 6), T0);

    // The command never reached the engine, so the two disagree.
    let _ = commands(&mut controller);
    assert_eq!(
        controller.time_signature(),
        TimeSignature::new(7, 4).unwrap()
    );

    // A resync answers with what the engine is actually running.
    controller.on_engine(
        Event::TimeSignature {
            beats_per_bar: 4,
            beat_unit: 4,
        },
        T0,
    );
    assert_eq!(
        controller.time_signature(),
        TimeSignature::four_four(),
        "the engine's own value wins"
    );
}

#[test]
fn a_refusal_that_never_arrives_is_still_put_right() {
    let mut controller = controller();
    controller.set_pickups([3; TRACK_COUNT]);
    open_signature(&mut controller);

    // Asking for a two beat bar would pull every pickup in to one.
    let beats_row = u8::try_from(BEATS_ROW).unwrap();
    press(&mut controller, addr(beats_row, 1), T0);
    assert_eq!(
        controller.pickups(),
        [3; TRACK_COUNT],
        "nothing that depends on the signature moved yet"
    );

    // The refusal is lost, and the resync says the bar never changed.
    controller.on_engine(
        Event::TimeSignature {
            beats_per_bar: 4,
            beat_unit: 4,
        },
        T0,
    );
    assert_eq!(controller.time_signature(), TimeSignature::four_four());
    assert_eq!(
        controller.pickups(),
        [3; TRACK_COUNT],
        "and neither did they"
    );
}

#[test]
fn two_presses_refused_both_land_back_on_the_engines_own_signature() {
    let mut controller = controller();
    open_signature(&mut controller);
    let beats_row = u8::try_from(BEATS_ROW).unwrap();

    // Two presses before either answer arrives.
    press(&mut controller, addr(beats_row, 2), T0);
    press(&mut controller, addr(beats_row, 6), T0);
    assert_eq!(
        controller.time_signature(),
        TimeSignature::new(7, 4).unwrap()
    );

    // Both refused. The engine never left 4/4, so neither refusal may land on 3/4.
    controller.on_engine(Event::TimeSignatureRejected, T0);
    assert_eq!(controller.time_signature(), TimeSignature::four_four());
    controller.on_engine(Event::TimeSignatureRejected, T0);
    assert_eq!(
        controller.time_signature(),
        TimeSignature::four_four(),
        "the fallback is the last confirmed value, not the last requested one"
    );
}

#[test]
fn a_refusal_after_a_narrower_bar_leaves_the_pickups_alone() {
    let mut controller = controller();
    controller.set_pickups([3; TRACK_COUNT]);
    open_signature(&mut controller);

    let beats_row = u8::try_from(BEATS_ROW).unwrap();
    press(&mut controller, addr(beats_row, 1), T0);
    controller.on_engine(Event::TimeSignatureRejected, T0);

    assert_eq!(controller.time_signature(), TimeSignature::four_four());
    assert_eq!(
        controller.pickups(),
        [3; TRACK_COUNT],
        "a refusal has only the display to undo"
    );
    assert_eq!(controller.subdivision(), Subdivision::Quarter);
}

#[test]
fn a_refused_signature_change_is_rolled_back() {
    let mut controller = controller();
    controller.set_loaded_time_signature(TimeSignature::new(7, 8).unwrap());
    open_signature(&mut controller);
    let beats_row = u8::try_from(BEATS_ROW).unwrap();
    press(&mut controller, addr(beats_row, 2), T0);
    assert_eq!(
        controller.time_signature(),
        TimeSignature::new(3, 8).unwrap()
    );

    controller.on_engine(Event::TimeSignatureRejected, T0);
    assert_eq!(
        controller.time_signature(),
        TimeSignature::new(7, 8).unwrap(),
        "back to what the engine still has"
    );
}

#[test]
fn a_narrower_bar_pulls_a_pickup_in_with_it() {
    let mut controller = controller();
    controller.set_pickups([3; TRACK_COUNT]);

    controller.set_loaded_time_signature(TimeSignature::new(2, 4).unwrap());
    assert_eq!(
        controller.pickups(),
        [1; TRACK_COUNT],
        "two beats to the bar leaves one to open from"
    );
}

#[test]
fn a_loaded_signature_is_what_a_later_save_records() {
    let mut controller = controller();
    let three_four = TimeSignature::new(3, 4).unwrap();

    controller.set_loaded_time_signature(three_four);
    assert_eq!(controller.time_signature(), three_four);
    assert!(
        commands(&mut controller).is_empty(),
        "the engine took it from the load itself"
    );
}

#[test]
fn the_beat_flash_is_half_a_beat_whatever_the_unit_is() {
    // The tempo counts quarter notes, so at 120 bpm a quarter beat is 500 ms.
    let dark_at = |signature: Option<TimeSignature>, at: u64| {
        let mut c = controller();
        if let Some(signature) = signature {
            c.set_loaded_time_signature(signature);
        }
        c.on_engine(Event::Beat { bar: 0, beat: 1 }, T0);
        c.take_frame();
        c.tick(T0 + millis(at));
        c.take_frame().is_some()
    };

    assert!(!dark_at(None, 249), "still lit in 4/4");
    assert!(dark_at(None, 250), "dark by half a quarter beat");

    // An eighth-note beat is half as long, so its flash is half as long too.
    let six_eight = TimeSignature::new(6, 8).unwrap();
    assert!(!dark_at(Some(six_eight), 124), "still lit in 6/8");
    assert!(dark_at(Some(six_eight), 125), "dark by half an eighth beat");
}

#[test]
fn a_loaded_signature_sets_how_far_a_pickup_can_reach() {
    let mut controller = controller();
    controller.set_loaded_time_signature(TimeSignature::new(3, 4).unwrap());
    controller.on_surface(side(SETTINGS_SIDE), T0);
    let column = u8::try_from(PICKUP_COLUMN).unwrap();
    let pad = SlotAddr::new(TrackId::new(2).unwrap(), SlotId::new(column).unwrap());
    let press = SurfaceEvent::PadPressed {
        addr: pad,
        velocity: 127,
    };

    // Two beats of tail in 3/4, where 4/4 reaches three.
    for beats in [1, 2, 0, 1] {
        controller.on_surface(press, T0);
        assert_eq!(controller.pickups()[2], beats);
    }
}

#[test]
fn the_third_settings_column_toggles_a_track_between_single_and_multiple() {
    let mut controller = controller();
    controller.on_surface(side(SETTINGS_SIDE), T0);
    let column = u8::try_from(POLYPHONY_COLUMN).unwrap();
    let pad = SlotAddr::new(TrackId::new(2).unwrap(), SlotId::new(column).unwrap());
    let press = SurfaceEvent::PadPressed {
        addr: pad,
        velocity: 127,
    };

    assert_eq!(controller.polyphony()[2], Polyphony::Single, "single first");
    controller.on_surface(press, T0);
    assert_eq!(controller.polyphony()[2], Polyphony::Multiple);
    controller.on_surface(press, T0);
    assert_eq!(controller.polyphony()[2], Polyphony::Single);

    assert!(
        controller.polyphony()[3].is_exclusive(),
        "the other tracks are left alone"
    );
}

#[test]
fn the_polyphony_a_track_is_on_reaches_the_engine() {
    let mut controller = controller();
    controller.on_surface(side(SETTINGS_SIDE), T0);
    let column = u8::try_from(POLYPHONY_COLUMN).unwrap();
    controller.on_surface(
        SurfaceEvent::PadPressed {
            addr: SlotAddr::new(TrackId::new(5).unwrap(), SlotId::new(column).unwrap()),
            velocity: 127,
        },
        T0,
    );

    let settings = controller
        .drain_work()
            .into_iter()
        .filter_map(|work| match work {
            Work::Command(Command::SetSettings(settings)) => Some(settings),
            _ => None,
        })
        .next_back()
        .expect("the change was published");
    assert_eq!(settings.polyphony[5], Polyphony::Multiple);
}

#[test]
fn a_pan_pad_puts_its_track_where_the_column_says() {
    let mut controller = controller();
    controller.on_surface(side(PAN_SIDE), T0);
    assert_eq!(controller.mode(), Mode::Pan);

    let press = |slot: u8| SurfaceEvent::PadPressed {
        addr: SlotAddr::new(TrackId::new(4).unwrap(), SlotId::new(slot).unwrap()),
        velocity: 127,
    };
    controller.on_surface(press(0), T0);
    assert_eq!(controller.pans()[4], 0, "hard left");
    controller.on_surface(press(6), T0);
    assert_eq!(controller.pans()[4], 6, "hard right");
    controller.on_surface(press(CENTRE_STEP), T0);
    assert_eq!(controller.pans()[4], CENTRE_STEP);
}

#[test]
fn the_pad_past_the_pan_row_does_nothing() {
    let mut controller = controller();
    controller.on_surface(side(PAN_SIDE), T0);
    let last = u8::try_from(SLOT_COUNT - 1).unwrap();
    controller.on_surface(
        SurfaceEvent::PadPressed {
            addr: SlotAddr::new(TrackId::new(0).unwrap(), SlotId::new(last).unwrap()),
            velocity: 127,
        },
        T0,
    );
    assert_eq!(
        controller.pans()[0],
        CENTRE_STEP,
        "the column past the row is not a pan"
    );
}

#[test]
fn a_pan_reaches_the_engine() {
    let mut controller = controller();
    controller.on_surface(side(PAN_SIDE), T0);
    controller.on_surface(
        SurfaceEvent::PadPressed {
            addr: SlotAddr::new(TrackId::new(2).unwrap(), SlotId::new(0).unwrap()),
            velocity: 127,
        },
        T0,
    );

    let settings = controller
        .drain_work()
            .into_iter()
        .filter_map(|work| match work {
            Work::Command(Command::SetSettings(settings)) => Some(settings),
            _ => None,
        })
        .next_back()
        .expect("the change was published");
    assert_eq!(settings.pans[2], 0);
}

#[test]
fn a_hold_does_not_survive_leaving_the_input_page() {
    let mut controller = controller();
    controller.set_input_count(4);
    controller.on_surface(SurfaceEvent::SidePressed { index: 2 }, T0);

    let first = hold_input(&mut controller, 0, 0);
    // Away and back, letting go while the page is not looking.
    controller.on_surface(SurfaceEvent::SidePressed { index: 2 }, T0);
    controller.on_surface(SurfaceEvent::PadReleased { addr: first }, T0);
    controller.on_surface(SurfaceEvent::SidePressed { index: 2 }, T0);

    hold_input(&mut controller, 0, 2);
    assert_eq!(
        controller.inputs()[0],
        TrackInput::Mono(2),
        "a pad nobody is holding cannot be paired with"
    );
}

#[test]
fn a_fresh_session_puts_every_track_back_to_its_defaults() {
    let mut controller = controller();
    let mut modes = [LaunchMode::Follow; TRACK_COUNT];
    modes[7] = LaunchMode::Restart;
    controller.set_launch_modes(modes);
    let mut inputs = [TrackInput::default(); TRACK_COUNT];
    inputs[7] = TrackInput::Mono(1);
    controller.set_inputs(inputs);
    let mut pickups = [0; TRACK_COUNT];
    pickups[7] = 2;
    controller.set_pickups(pickups);
    let mut polyphony = [Polyphony::Single; TRACK_COUNT];
    polyphony[7] = Polyphony::Multiple;
    controller.set_polyphony(polyphony);
    let mut pans = [CENTRE_STEP; TRACK_COUNT];
    pans[7] = 0;
    controller.set_pans(pans);
    let _ = commands(&mut controller);

    controller.on_surface(SurfaceEvent::ControlPressed(Control::LoadSession), T0);
    controller.on_surface(side(NEW_SIDE), T0);

    assert_eq!(controller.launch_modes(), [LaunchMode::Follow; TRACK_COUNT]);
    assert_eq!(controller.inputs(), [TrackInput::default(); TRACK_COUNT]);
    assert_eq!(controller.pickups(), [0; TRACK_COUNT]);
    assert_eq!(controller.polyphony(), [Polyphony::Single; TRACK_COUNT]);
    assert_eq!(controller.pans(), [CENTRE_STEP; TRACK_COUNT]);
}

#[test]
fn the_settings_button_toggles_a_track_between_the_modes() {
    let mut controller = controller();
    controller.on_surface(SurfaceEvent::SidePressed { index: 3 }, T0);
    let _ = commands(&mut controller);

    let pad = SlotAddr::new(TrackId::new(2).unwrap(), SlotId::new(0).unwrap());
    let press = SurfaceEvent::PadPressed {
        addr: pad,
        velocity: 127,
    };
    controller.on_surface(press, T0);

    let mut wanted = [LaunchMode::Follow; TRACK_COUNT];
    wanted[2] = LaunchMode::Restart;
    assert_eq!(controller.launch_modes(), wanted);
    assert_eq!(settings(&mut controller).launch_modes, wanted);

    controller.on_surface(press, T0);
    assert_eq!(
        controller.launch_modes(),
        [LaunchMode::Follow; TRACK_COUNT],
        "and back again"
    );
}

#[test]
fn a_settings_column_that_does_nothing_yet_is_ignored() {
    let mut controller = controller();
    controller.on_surface(SurfaceEvent::SidePressed { index: 3 }, T0);
    let _ = commands(&mut controller);

    let pad = SlotAddr::new(TrackId::new(0).unwrap(), SlotId::new(4).unwrap());
    controller.on_surface(
        SurfaceEvent::PadPressed {
            addr: pad,
            velocity: 127,
        },
        T0,
    );
    assert!(commands(&mut controller).is_empty());
}

#[test]
fn the_input_button_opens_a_row_per_track() {
    let mut controller = controller();
    controller.set_input_count(2);
    controller.on_surface(SurfaceEvent::SidePressed { index: 2 }, T0);

    let frame = controller.take_frame().unwrap();
    let channel = |c| SlotAddr::new(TrackId::new(0).unwrap(), SlotId::new(c).unwrap());
    assert!(frame.pad(channel(0)).is_lit(), "one column per channel");
    assert!(
        frame.pad(channel(1)).is_lit(),
        "and both of the pair are on"
    );
    assert!(
        !frame.pad(channel(2)).is_lit(),
        "a channel the device lacks is dark"
    );
}

#[test]
fn a_tap_takes_one_channel_as_mono() {
    let mut controller = controller();
    controller.set_input_count(2);
    controller.on_surface(SurfaceEvent::SidePressed { index: 2 }, T0);
    let _ = commands(&mut controller);

    let pad = SlotAddr::new(TrackId::new(3).unwrap(), SlotId::new(1).unwrap());
    controller.on_surface(
        SurfaceEvent::PadPressed {
            addr: pad,
            velocity: 127,
        },
        T0,
    );

    let mut wanted = [TrackInput::default(); TRACK_COUNT];
    wanted[3] = TrackInput::Mono(1);
    assert_eq!(controller.inputs(), wanted, "a tap takes that one channel");
    assert_eq!(settings(&mut controller).inputs, wanted);
}

/// Presses `column` on `track`'s input row, leaving it down.
fn hold_input(controller: &mut Controller, track: u8, column: u8) -> SlotAddr {
    let pad = SlotAddr::new(TrackId::new(track).unwrap(), SlotId::new(column).unwrap());
    controller.on_surface(
        SurfaceEvent::PadPressed {
            addr: pad,
            velocity: 127,
        },
        T0,
    );
    pad
}

#[test]
fn holding_one_channel_and_tapping_another_makes_a_pair() {
    let mut controller = controller();
    controller.set_input_count(4);
    controller.on_surface(SurfaceEvent::SidePressed { index: 2 }, T0);

    let first = hold_input(&mut controller, 3, 3);
    hold_input(&mut controller, 3, 1);

    assert_eq!(
        controller.inputs()[3],
        TrackInput::Pair(1, 3),
        "lower channel on the left, whichever was pressed first"
    );
    controller.on_surface(SurfaceEvent::PadReleased { addr: first }, T0);
}

#[test]
fn a_tap_after_the_hold_is_let_go_replaces_the_pair() {
    let mut controller = controller();
    controller.set_input_count(4);
    controller.on_surface(SurfaceEvent::SidePressed { index: 2 }, T0);

    let first = hold_input(&mut controller, 0, 0);
    hold_input(&mut controller, 0, 2);
    assert_eq!(controller.inputs()[0], TrackInput::Pair(0, 2));

    controller.on_surface(SurfaceEvent::PadReleased { addr: first }, T0);
    let second = hold_input(&mut controller, 0, 2);
    controller.on_surface(SurfaceEvent::PadReleased { addr: second }, T0);

    assert_eq!(
        controller.inputs()[0],
        TrackInput::Mono(2),
        "a press on its own is one channel again"
    );
}

#[test]
fn a_pair_cannot_reach_across_tracks() {
    let mut controller = controller();
    controller.set_input_count(4);
    controller.on_surface(SurfaceEvent::SidePressed { index: 2 }, T0);

    hold_input(&mut controller, 0, 0);
    hold_input(&mut controller, 1, 3);

    assert_eq!(controller.inputs()[0], TrackInput::Mono(0));
    assert_eq!(controller.inputs()[1], TrackInput::Mono(3), "its own row");
}

#[test]
fn a_channel_the_device_lacks_is_ignored() {
    let mut controller = controller();
    controller.set_input_count(2);
    controller.on_surface(SurfaceEvent::SidePressed { index: 2 }, T0);
    let _ = commands(&mut controller);

    let pad = SlotAddr::new(TrackId::new(0).unwrap(), SlotId::new(5).unwrap());
    controller.on_surface(
        SurfaceEvent::PadPressed {
            addr: pad,
            velocity: 127,
        },
        T0,
    );

    assert_eq!(controller.inputs(), [TrackInput::default(); TRACK_COUNT]);
    assert!(commands(&mut controller).is_empty());
}

#[test]
fn a_held_button_repeats_in_fives() {
    let mut controller = controller();
    controller.on_surface(SurfaceEvent::ControlPressed(Control::TempoUp), T0);

    controller.tick(millis(400));
    assert_eq!(bpm(&controller), 126.0, "the tap plus one repeat");

    controller.tick(millis(520));
    assert_eq!(bpm(&controller), 131.0);
}

#[test]
fn a_held_button_repeats_downwards_too() {
    let mut controller = controller();
    controller.on_surface(SurfaceEvent::ControlPressed(Control::TempoDown), T0);
    controller.tick(millis(400));
    assert_eq!(bpm(&controller), 114.0);
}

#[test]
fn a_repeat_says_nothing_until_the_button_is_let_go() {
    let mut controller = controller();
    controller.on_surface(SurfaceEvent::ControlPressed(Control::TempoUp), T0);

    for at in (400..1_000).step_by(20) {
        controller.tick(millis(at));
        assert_eq!(
            controller.take_text(),
            None,
            "an update every repeat restarts the scroll and it never finishes"
        );
    }

    controller.on_surface(
        SurfaceEvent::ControlReleased(Control::TempoUp),
        millis(1_000),
    );
    assert_eq!(
        controller.take_text(),
        Some(TextUpdate::Show(bpm(&controller).to_string()))
    );
}

#[test]
fn the_grid_comes_back_after_the_bpm_has_been_read() {
    let mut controller = controller();
    controller.on_surface(SurfaceEvent::ControlPressed(Control::TempoUp), T0);
    controller.tick(millis(400));
    controller.on_surface(SurfaceEvent::ControlReleased(Control::TempoUp), millis(500));
    controller.take_frame();
    controller.take_text();

    controller.tick(millis(600));
    assert!(
        controller.take_frame().is_none(),
        "a frame now would cut the number off part way"
    );

    controller.tick(millis(500) + TEXT_DURATION);
    assert_eq!(controller.take_text(), Some(TextUpdate::Stop));
    assert!(controller.take_frame().is_some(), "and the grid comes back");
}

#[test]
fn releasing_stops_the_repeat() {
    let mut controller = controller();
    controller.on_surface(SurfaceEvent::ControlPressed(Control::TempoUp), T0);
    controller.tick(millis(400));
    controller.on_surface(SurfaceEvent::ControlReleased(Control::TempoUp), millis(450));

    let settled = bpm(&controller);
    controller.tick(millis(2_000));
    assert_eq!(bpm(&controller), settled);
}

#[test]
fn a_repeat_stops_at_the_supported_range() {
    let mut controller = Controller::new(tempo(f64::from_bits(MAX_BPM) - 2.0), TimeSignature::four_four(), true);
    controller.on_surface(SurfaceEvent::ControlPressed(Control::TempoUp), T0);
    for at in (0..2_000).step_by(20) {
        controller.tick(millis(at));
    }
    assert_eq!(controller.tempo(), Tempo::new(MAX_BPM).unwrap());
}

#[test]
fn tempo_stops_at_the_supported_range() {
    let mut controller = Controller::new(Tempo::new(MAX_BPM).unwrap(), TimeSignature::four_four(), true);
    controller.on_surface(SurfaceEvent::ControlPressed(Control::TempoUp), T0);
    assert_eq!(controller.tempo(), Tempo::new(MAX_BPM).unwrap());
    assert!(
        commands(&mut controller).is_empty(),
        "a change that moves nothing should not be sent"
    );

    let mut controller = Controller::new(Tempo::new(MIN_BPM).unwrap(), TimeSignature::four_four(), true);
    controller.on_surface(SurfaceEvent::ControlPressed(Control::TempoDown), T0);
    assert_eq!(controller.tempo(), Tempo::new(MIN_BPM).unwrap());
}

#[test]
fn a_refused_tempo_change_is_rolled_back() {
    let mut controller = controller();
    controller.on_surface(SurfaceEvent::ControlPressed(Control::TempoUp), T0);
    assert_eq!(bpm(&controller), 121.0, "assumed to land");

    controller.on_engine(Event::TempoRejected, T0);
    assert_eq!(
        bpm(&controller),
        120.0,
        "and rolled back when it does not"
    );
}

#[test]
fn slot_reports_reach_the_grid() {
    let mut controller = controller();
    controller.take_frame();

    controller.on_engine(
        Event::SlotChanged {
            addr: addr(1, 2),
            state: SlotState::Playing { clip: ClipId(0) },
        },
        T0,
    );

    let frame = controller.take_frame().expect("the grid changed");
    assert_eq!(frame.pad(addr(1, 2)), Led::pulse(LedColor::Green));
}

#[test]
fn the_frame_is_only_produced_when_something_changed() {
    let mut controller = controller();
    assert!(controller.take_frame().is_some(), "the first frame is new");
    assert!(controller.take_frame().is_none());

    controller.on_engine(Event::Xrun { frames: 128 }, T0);
    assert!(
        controller.take_frame().is_none(),
        "an xrun changes nothing on the grid"
    );

    controller.on_engine(Event::Beat { bar: 0, beat: 1 }, T0);
    assert!(controller.take_frame().is_some());
}

#[test]
fn repeating_the_same_beat_does_not_force_a_repaint() {
    let mut controller = controller();
    controller.take_frame();
    controller.on_engine(Event::Beat { bar: 0, beat: 0 }, T0);
    assert!(controller.take_frame().is_none());
}

#[test]
fn the_beat_indicator_follows_the_transport() {
    let mut controller = controller();
    controller.on_engine(Event::Beat { bar: 3, beat: 2 }, T0);

    let frame = controller.take_frame().unwrap();
    assert_eq!(
        frame.control(FIRST_BEAT_LED),
        Led::solid(LedColor::White),
        "off the downbeat"
    );

    controller.on_engine(Event::Beat { bar: 4, beat: 0 }, T0);
    let frame = controller.take_frame().unwrap();
    assert_eq!(
        frame.control(FIRST_BEAT_LED),
        Led::solid(LedColor::Red),
        "the downbeat"
    );
}

#[test]
fn the_beat_goes_dark_between_beats_and_lights_again_on_the_next() {
    let mut controller = controller();
    controller.on_engine(Event::Beat { bar: 0, beat: 1 }, T0);
    controller.take_frame();

    // Half a beat at 120 bpm.
    controller.tick(T0 + millis(249));
    assert!(
        controller.take_frame().is_none(),
        "still lit up to the halfway point"
    );

    controller.tick(T0 + millis(250));
    let dark = controller.take_frame().unwrap();
    assert_eq!(
        dark.control(FIRST_BEAT_LED),
        control_led(Control::TempoUp, controller.chrome()),
        "the button it shares gets its own colour back"
    );

    controller.on_engine(Event::Beat { bar: 0, beat: 2 }, T0 + millis(500));
    assert_eq!(
        controller.take_frame().unwrap().control(FIRST_BEAT_LED),
        Led::solid(LedColor::White),
        "lit again on the next beat"
    );
}

#[test]
fn a_recording_pad_shows_red_before_any_clip_exists() {
    let mut controller = controller();
    controller.on_engine(
        Event::SlotChanged {
            addr: addr(0, 0),
            state: SlotState::Recording {
                started_at: Frames(0),
                ends_at: None,
            },
        },
        T0,
    );

    let frame = controller.take_frame().unwrap();
    assert_eq!(frame.pad(addr(0, 0)), Led::solid(LedColor::Red));
}

#[test]
fn holding_a_pad_empties_it_without_acting_first() {
    let mut controller = controller();
    let pad = addr(1, 1);

    press(&mut controller, pad, T0);
    controller.tick(millis(999));
    assert!(commands(&mut controller).is_empty(), "not held long enough");

    controller.tick(millis(1_000));
    assert_eq!(
        commands(&mut controller),
        vec![Command::Clear(pad)],
        "a hold must not arm or launch on its way to emptying the pad"
    );
}

#[test]
fn releasing_after_a_hold_completes_does_nothing_more() {
    let mut controller = controller();
    let pad = addr(1, 1);

    press(&mut controller, pad, T0);
    controller.tick(millis(1_000));
    assert_eq!(commands(&mut controller), vec![Command::Clear(pad)]);

    controller.tick(millis(1_500));
    controller.on_surface(SurfaceEvent::PadReleased { addr: pad }, millis(2_000));
    assert!(
        commands(&mut controller).is_empty(),
        "the hold was already spent"
    );
}

#[test]
fn releasing_early_acts_as_a_press_and_leaves_the_clip_alone() {
    let mut controller = controller();
    let pad = addr(1, 1);

    press(&mut controller, pad, T0);
    controller.tick(millis(500));
    controller.on_surface(SurfaceEvent::PadReleased { addr: pad }, millis(600));
    assert_eq!(commands(&mut controller), vec![Command::Press(pad)]);

    controller.tick(millis(2_000));
    assert!(
        commands(&mut controller).is_empty(),
        "the hold was abandoned"
    );
}

#[test]
fn a_hold_warns_before_it_empties() {
    let mut controller = controller();
    let pad = addr(4, 6);
    controller.on_engine(
        Event::SlotChanged {
            addr: pad,
            state: SlotState::Playing { clip: ClipId(0) },
        },
        T0,
    );
    controller.take_frame();

    press(&mut controller, pad, T0);
    controller.tick(millis(399));
    assert!(controller.take_frame().is_none(), "too early to warn");

    controller.tick(millis(400));
    let frame = controller.take_frame().expect("the warning appeared");
    assert_eq!(frame.pad(pad), Led::flash(LedColor::White));
    assert_ne!(frame.pad(addr(4, 5)), Led::flash(LedColor::White));
}

#[test]
fn the_warning_clears_when_the_hold_does() {
    let mut controller = controller();
    let pad = addr(0, 0);

    press(&mut controller, pad, T0);
    controller.tick(millis(500));
    controller.take_frame();

    controller.on_surface(SurfaceEvent::PadReleased { addr: pad }, millis(600));
    controller.tick(millis(600));
    let frame = controller.take_frame().expect("the warning went away");
    assert_ne!(frame.pad(pad), Led::flash(LedColor::White));
}

#[test]
fn holds_are_tracked_per_pad() {
    let mut controller = controller();
    let held = addr(2, 2);
    let tapped = addr(3, 3);

    press(&mut controller, held, T0);
    press(&mut controller, tapped, millis(100));
    controller.on_surface(SurfaceEvent::PadReleased { addr: tapped }, millis(200));
    assert_eq!(commands(&mut controller), vec![Command::Press(tapped)]);

    controller.tick(millis(1_000));
    assert_eq!(commands(&mut controller), vec![Command::Clear(held)]);
}
