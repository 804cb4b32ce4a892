//! What the buttons do: every screen's pads and buttons, said of what the performer sees, of what
//! the engine is told, and of what stays as it was.

use vstd::arithmetic::power2::{lemma2_to64, lemma_pow2_strictly_increases, pow2};
use vstd::prelude::*;

use crate::command::Command;
use crate::control::{
    any_past, every, fitting_rate, pickup_degrees, pulled_in, settings_of, tempo_text,
    warned, Axis, Chrome, ControllerView,
    Request, TextView, Work, CLEAR_HOLD, CLEAR_WARNING, CLICK_HOLD, TEMPO_HOLD_DELAY,
    TEMPO_HOLD_INTERVAL,
};
use crate::device::{Nanos, LONGEST};
use crate::event::Event;
use crate::gain::UNITY_STEP;
use crate::gestures::{emptying, in_group, set_steps};
use crate::grid::{fallback_fits, Subdivision};
use crate::ids::{
    column_set, holds, holds_place, none_held, places_are_addresses, row_set, PadMask, SlotAddr,
    TrackInput,
};
use crate::pan::CENTRE_STEP;
use crate::screen::{
    rate_of, Mode, BEATS_ROW, PICKUP_COLUMN, POLYPHONY_COLUMN, RESTART_COLUMN, SUBDIVISION_ROW,
    UNIT_ROW,
};
use crate::surface::{
    Control, LedColor, SurfaceEvent, INPUT_SIDE, MUTE_SIDE, NEW_SIDE, PAN_SIDE, PAUSE_SIDE, SETTINGS_SIDE,
    SHADES, SOLO_SIDE, VOLUME_SIDE,
};
use crate::text::digits;
use crate::time::{power_of_two, TimeSignature};

verus! {

/// Settings are told as they are shown: every track's gain, input, launch mode, pickup, polyphony
/// and place across the field, and which pads are muted and soloed. No loop is set apart from its
/// track, and nothing is played through.
pub proof fn settings_are_told_as_shown(chrome: Chrome, track: int, slot: int)
    requires
        0 <= track < 8,
        0 <= slot < 8,
    ensures
        ({
            let told = settings_of(chrome);
            &&& told.gains[track] == chrome.gains[track]
            &&& told.inputs[track] == chrome.inputs[track]
            &&& told.launch_modes[track] == chrome.launch_modes[track]
            &&& told.pickups[track] == chrome.pickups[track]
            &&& told.polyphony[track] == chrome.polyphony[track]
            &&& told.pans[track] == chrome.pans[track]
            &&& told.muted == chrome.muted
            &&& told.soloed == chrome.soloed
            &&& told.loop_gains[track][slot] == UNITY_STEP
            &&& told.loop_pans[track][slot] == CENTRE_STEP
            &&& !told.passthrough[track]
        }),
{
}

/// What a change of one track's settings leaves alone: the other tracks, the transport, the click
/// and the screen. The engine is told the settings as they are now.
pub open spec fn sets_track(v: ControllerView, w: ControllerView, track: int) -> bool {
    &&& w.work.len() > 0
    &&& w.work.last() == Work::Command(Command::SetSettings(settings_of(w.chrome)))
    &&& w.dirty
    &&& w.mode == v.mode
    &&& w.session == v.session
    &&& w.tempo == v.tempo
    &&& w.time_signature == v.time_signature
    &&& w.chrome.muted == v.chrome.muted
    &&& w.chrome.soloed == v.chrome.soloed
    &&& w.chrome.paused == v.chrome.paused
    &&& w.chrome.click_enabled == v.chrome.click_enabled
    &&& w.chrome.subdivision == v.chrome.subdivision
    &&& w.chrome.signature == v.chrome.signature
    &&& forall|other: int|
        #![trigger w.chrome.gains[other]]
        #![trigger w.chrome.pans[other]]
        #![trigger w.chrome.inputs[other]]
        #![trigger w.chrome.launch_modes[other]]
        #![trigger w.chrome.pickups[other]]
        #![trigger w.chrome.polyphony[other]]
        0 <= other < 8 && other != track ==> {
            &&& w.chrome.gains[other] == v.chrome.gains[other]
            &&& w.chrome.pans[other] == v.chrome.pans[other]
            &&& w.chrome.inputs[other] == v.chrome.inputs[other]
            &&& w.chrome.launch_modes[other] == v.chrome.launch_modes[other]
            &&& w.chrome.pickups[other] == v.chrome.pickups[other]
            &&& w.chrome.polyphony[other] == v.chrome.polyphony[other]
        }
}

/// A pad of the volume screen sets its row's track to the level of its column.
pub proof fn a_level_is_its_column(v: ControllerView, addr: SlotAddr)
    requires
        addr.wf(),
    ensures
        ({
            let w = v.sets_level(addr);
            let track = addr.track.num();
            &&& sets_track(v, w, track)
            &&& w.chrome.gains[track] == addr.slot.num()
            &&& w.chrome.pans[track] == v.chrome.pans[track]
            &&& w.chrome.inputs[track] == v.chrome.inputs[track]
            &&& w.chrome.launch_modes[track] == v.chrome.launch_modes[track]
            &&& w.chrome.pickups[track] == v.chrome.pickups[track]
            &&& w.chrome.polyphony[track] == v.chrome.polyphony[track]
        }),
{
}

/// A pad of the pan screen sets its row's track to the place of its column. The column past the
/// last place does nothing.
pub proof fn a_place_is_its_column(v: ControllerView, addr: SlotAddr)
    requires
        addr.wf(),
    ensures
        ({
            let w = v.sets_pan(addr);
            let track = addr.track.num();
            if addr.slot.num() < 7 {
                &&& sets_track(v, w, track)
                &&& w.chrome.pans[track] == addr.slot.num()
                &&& w.chrome.gains == v.chrome.gains
                &&& w.chrome.inputs == v.chrome.inputs
                &&& w.chrome.launch_modes == v.chrome.launch_modes
                &&& w.chrome.pickups == v.chrome.pickups
                &&& w.chrome.polyphony == v.chrome.polyphony
            } else {
                w == v
            }
        }),
{
}

/// A pad of the input screen sets its row's track to the channel of its column. A second pad of the
/// row pressed while the first is down sets it to the two of them, the lower one on the left,
/// whichever went down first. A channel the device does not have does nothing.
pub proof fn an_input_is_its_columns(v: ControllerView, first: SlotAddr, second: SlotAddr)
    requires
        first.wf(),
        second.wf(),
        v.input_held is None,
        first.track == second.track,
        first.slot != second.slot,
    ensures
        ({
            let one = v.presses_input(first);
            let both = one.presses_input(second);
            let track = first.track.num();
            let a = first.slot.num();
            let b = second.slot.num();
            &&& a >= v.chrome.input_count ==> one == v
            &&& a < v.chrome.input_count ==> sets_track(v, one, track)
                && one.chrome.inputs[track] == TrackInput::Mono(a as u8) && one.chrome.gains
                == v.chrome.gains && one.chrome.launch_modes == v.chrome.launch_modes
            &&& a < v.chrome.input_count && b >= v.chrome.input_count ==> both == one
            &&& a < v.chrome.input_count && b < v.chrome.input_count ==> sets_track(v, both, track)
                && both.chrome.inputs[track] == (if a < b {
                TrackInput::Pair(a as u8, b as u8)
            } else {
                TrackInput::Pair(b as u8, a as u8)
            })
        }),
{
}

/// A pad of the settings screen flips the setting of its column for its row's track: where its
/// loops start, or how many sound at once. Pressed twice it is as it was.
pub proof fn a_setting_flips(v: ControllerView, addr: SlotAddr)
    requires
        addr.wf(),
    ensures
        ({
            let once = v.toggles_setting(addr);
            let twice = once.toggles_setting(addr);
            let track = addr.track.num();
            let column = addr.slot.num();
            &&& column == RESTART_COLUMN ==> {
                &&& sets_track(v, once, track)
                &&& once.chrome.launch_modes[track] is Restart <==> v.chrome.launch_modes[track] is Follow
                &&& twice.chrome.launch_modes[track] == v.chrome.launch_modes[track]
                &&& once.chrome.pickups == v.chrome.pickups
                &&& once.chrome.polyphony == v.chrome.polyphony
            }
            &&& column == POLYPHONY_COLUMN ==> {
                &&& sets_track(v, once, track)
                &&& once.chrome.polyphony[track] is Multiple <==> v.chrome.polyphony[track] is Single
                &&& twice.chrome.polyphony[track] == v.chrome.polyphony[track]
                &&& once.chrome.pickups == v.chrome.pickups
                &&& once.chrome.launch_modes == v.chrome.launch_modes
            }
            &&& column != RESTART_COLUMN && column != POLYPHONY_COLUMN && column != PICKUP_COLUMN
                ==> once == v
        }),
{
}

/// A pad of the pickup column takes its row's track a beat further, as far as the beats before the
/// bar's last or the shades there are to show it, and from there to none.
pub proof fn a_pickup_goes_round(v: ControllerView, addr: SlotAddr)
    requires
        addr.wf(),
        addr.slot.num() == PICKUP_COLUMN,
    ensures
        ({
            let w = v.toggles_setting(addr);
            let track = addr.track.num();
            let was = v.chrome.pickups[track];
            &&& sets_track(v, w, track)
            &&& w.chrome.pickups[track] == (if was + 1 < v.chrome.signature.beats() && was + 1
                < SHADES {
                was + 1
            } else {
                0
            })
            &&& w.chrome.launch_modes == v.chrome.launch_modes
            &&& w.chrome.polyphony == v.chrome.polyphony
            &&& w.chrome.gains == v.chrome.gains
        }),
{
}

/// A pad of the mute screen mutes, and one of the solo screen soloes, the whole row or column it
/// is in if it was not; and frees the whole of it if it was. No other pad is touched, and neither
/// screen touches what the other sets.
pub proof fn a_group_follows_its_pad(v: ControllerView, addr: SlotAddr, other: SlotAddr)
    requires
        addr.wf(),
        other.wf(),
        v.mode is Mute || v.mode is Solo,
    ensures
        ({
            let w = v.toggles_group(addr);
            let grouped = if v.chrome.axis == Axis::Row {
                other.track == addr.track
            } else {
                other.slot == addr.slot
            };
            let (was, now, apart) = if v.mode is Mute {
                (v.chrome.muted, w.chrome.muted, w.chrome.soloed == v.chrome.soloed)
            } else {
                (v.chrome.soloed, w.chrome.soloed, w.chrome.muted == v.chrome.muted)
            };
            &&& apart
            &&& holds(now, other) <==> (if grouped {
                !holds(was, addr)
            } else {
                holds(was, other)
            })
            &&& w.work.len() > 0
            &&& w.work.last() == Work::Command(Command::SetSettings(settings_of(w.chrome)))
            &&& w.chrome.gains == v.chrome.gains
            &&& w.chrome.inputs == v.chrome.inputs
            &&& w.mode == v.mode
        }),
{
    let group = if v.chrome.axis is Row {
        row_set(addr.track)
    } else {
        column_set(addr.slot)
    };
    in_group(addr, other);
    in_group(addr, addr);
    set_steps(v.chrome.muted, group, other.place());
    set_steps(v.chrome.soloed, group, other.place());
}

/// Each screen's pads do what the screen is for: loops are held, levels, places, inputs and
/// settings are set, groups are marked, sessions are picked and questions answered. On the screen
/// of the signature and of the click's rate the rows that stand for something do, and the rest of
/// the pads do nothing.
pub proof fn pads_do_what_their_screen_is_for(
    v: ControllerView,
    addr: SlotAddr,
    velocity: u8,
    now: Nanos,
)
    requires
        addr.wf(),
    ensures
        ({
            let w = v.takes_gesture(SurfaceEvent::PadPressed { addr, velocity }, now);
            match v.mode {
                Mode::Perform => w == (ControllerView {
                    held: v.held.update(addr.place(), Some(now)),
                    ..v
                }),
                Mode::Volume => w == v.sets_level(addr),
                Mode::Pan => w == v.sets_pan(addr),
                Mode::Input => w == v.presses_input(addr),
                Mode::Settings => w == v.toggles_setting(addr),
                Mode::Mute => w == v.toggles_group(addr),
                Mode::Solo => w == v.toggles_group(addr),
                Mode::SavePicker => w == v.presses_save(addr),
                Mode::LoadPicker => w == v.presses_load(addr),
                Mode::ConfirmSave(_) => w == v.answers(addr),
                Mode::ConfirmLoad(_) => w == v.answers(addr),
                Mode::TimeSignature => if addr.track.num() == BEATS_ROW {
                    w == v.presses_signature(
                        TimeSignature::of(addr.slot.num() + 1, v.time_signature.unit()),
                        now,
                    )
                } else if addr.track.num() == UNIT_ROW && addr.slot.num() < 4 {
                    w == v.presses_signature(
                        TimeSignature::of(
                            v.time_signature.beats(),
                            if addr.slot.num() == 0 {
                                2
                            } else if addr.slot.num() == 1 {
                                4
                            } else if addr.slot.num() == 2 {
                                8
                            } else {
                                16
                            },
                        ),
                        now,
                    )
                } else {
                    w == v
                },
                Mode::Subdivision => if addr.track.num() == SUBDIVISION_ROW {
                    w == v.presses_rate(rate_of(addr.slot.num()), now)
                } else {
                    w == v
                },
            }
        }),
{
}

/// The rates of the click's row climb from left to right: one click to a whole note, then two and
/// three, four and six, eight and twelve, and sixteen.
pub proof fn rates_climb_along_the_row(column: int)
    requires
        0 <= column < 8,
    ensures
        rate_of(column).rate() == (if column % 2 == 1 {
            if column == 1 {
                2int
            } else if column == 3 {
                4
            } else if column == 5 {
                8
            } else {
                16
            }
        } else {
            if column == 0 {
                1
            } else if column == 2 {
                3
            } else if column == 4 {
                6
            } else {
                12
            }
        }),
        column < 7 ==> rate_of(column).rate() < rate_of(column + 1).rate(),
{
}

/// A pad of the save screen is saved to, after a question if it holds a session. A pad of the load
/// screen is loaded from if it holds one, after a question if the grid holds anything.
pub proof fn sessions_are_asked_for_by_their_pad(v: ControllerView, addr: SlotAddr)
    requires
        addr.wf(),
    ensures
        ({
            let saved = v.presses_save(addr);
            let taken = v.presses_load(addr);
            &&& holds(v.sessions, addr) ==> saved.mode == Mode::ConfirmSave(addr) && saved.work
                == v.work
            &&& !holds(v.sessions, addr) ==> saved.work == v.work.push(
                Work::Request(Request::SaveSession(addr)),
            )
            &&& !holds(v.sessions, addr) ==> taken == v
            &&& holds(v.sessions, addr) && v.has_clip() ==> taken.mode == Mode::ConfirmLoad(addr)
                && taken.work == v.work
            &&& holds(v.sessions, addr) && !v.has_clip() ==> taken.work == v.work.push(
                Work::Request(Request::LoadSession(addr)),
            )
            &&& saved.chrome == v.chrome
            &&& taken.chrome == v.chrome
            &&& saved.session == v.session
            &&& taken.session == v.session
        }),
{
}

/// A question is answered by the two ends of the top row: yes does what was asked of the pad it was
/// asked about, no does nothing, and both go back to the loops. Every other pad leaves it standing.
pub proof fn questions_are_answered(
    v: ControllerView,
    about: SlotAddr,
    addr: SlotAddr,
)
    requires
        addr.wf(),
        v.mode == Mode::ConfirmSave(about) || v.mode == Mode::ConfirmLoad(about),
    ensures
        ({
            let w = v.answers(addr);
            let yes = addr.track.num() == 0 && addr.slot.num() == 0;
            let no = addr.track.num() == 0 && addr.slot.num() == 7;
            &&& w.mode is Perform <==> yes || no
            &&& yes && v.mode is ConfirmSave ==> w.work == v.work.push(
                Work::Request(Request::SaveSession(about)),
            )
            &&& yes && v.mode is ConfirmLoad ==> w.work == v.work.push(
                Work::Request(Request::LoadSession(about)),
            )
            &&& no ==> w.work == v.work
            &&& !yes && !no ==> w == v
        }),
{
}

/// A signature pad asks for the beats or the unit it stands for, and keeps the other number. While
/// a clip exists it asks for nothing.
pub proof fn a_signature_is_asked_for_by_its_number(
    v: ControllerView,
    next: TimeSignature,
    now: Nanos,
)
    ensures
        ({
            let w = v.presses_signature(next, now);
            &&& v.has_clip() || next == v.time_signature ==> w.work == v.work && w.time_signature
                == v.time_signature && w.chrome == v.chrome
            &&& !v.has_clip() && next != v.time_signature ==> w.work == v.work.push(
                Work::Command(Command::SetTimeSignature(next)),
            ) && w.time_signature == next && w.chrome.signature == next
            &&& w.chrome.pickups == v.chrome.pickups
            &&& w.chrome.subdivision == v.chrome.subdivision
            &&& w.confirmed_signature == v.confirmed_signature
        }),
{
}

/// The transport's button freezes a running transport and resumes a frozen one, on every screen,
/// and pressed twice leaves it as it was.
pub proof fn pause_is_everywhere(v: ControllerView, now: Nanos)
    ensures
        ({
            let press = SurfaceEvent::SidePressed { index: PAUSE_SIDE as u8 };
            let once = v.takes_gesture(press, now);
            let twice = once.toggles_paused();
            &&& once == v.toggles_paused()
            &&& once.chrome.paused == !v.chrome.paused
            &&& once.work == v.work.push(Work::Command(Command::SetPaused(!v.chrome.paused)))
            &&& twice.chrome.paused == v.chrome.paused
            &&& twice.work.last() == Work::Command(Command::SetPaused(v.chrome.paused))
            &&& once.mode == v.mode
        }),
{
}

/// On the loops, the buttons of the top row ask for what they are called: everything stopped, back
/// to the start, another way to group, the tempo up or down, the click. Where a screen has no use
/// for one it does nothing.
pub proof fn the_top_row_asks_the_engine(v: ControllerView, control: Control, now: Nanos)
    ensures
        ({
            let w = v.takes_gesture(SurfaceEvent::ControlPressed(control), now);
            let grouping = v.mode is Perform || v.mode is Mute || v.mode is Solo;
            &&& control is StopAll ==> w == (ControllerView {
                work: if v.mode is Perform {
                    v.work.push(Work::Command(Command::StopAll))
                } else {
                    v.work
                },
                ..v
            })
            &&& control is Rewind ==> w == (ControllerView {
                work: if v.mode is Perform {
                    v.work.push(Work::Command(Command::Rewind))
                } else {
                    v.work
                },
                ..v
            })
            &&& control is Axis ==> w.chrome.muted == v.chrome.muted && w.chrome.soloed
                == v.chrome.soloed && w.work == v.work && (w.chrome.axis != v.chrome.axis
                <==> grouping)
            &&& control is TempoUp && v.mode is Perform ==> w == v.presses_tempo(1, now)
            &&& control is TempoDown && v.mode is Perform ==> w == v.presses_tempo((-1) as i32, now)
            &&& control is ClickToggle && v.mode is Perform ==> w == v.presses_click(now)
            &&& control is SaveSession && v.mode is Perform ==> w.mode is SavePicker && w.work
                == v.work && w.chrome == v.chrome
            &&& control is LoadSession && v.mode is Perform ==> w.mode is LoadPicker && w.work
                == v.work && w.chrome == v.chrome
            &&& control is SaveSession && v.mode is SavePicker ==> w.mode is Perform
            &&& control is LoadSession && v.mode is LoadPicker ==> w.mode is Perform
        }),
{
}

/// Letting a button go ends what it began: the tempo's and the click's. Every other button does
/// nothing on the way up.
pub proof fn buttons_end_what_they_began(v: ControllerView, control: Control, now: Nanos)
    ensures
        ({
            let w = v.takes_gesture(SurfaceEvent::ControlReleased(control), now);
            &&& control is TempoUp || control is TempoDown ==> w.tempo_hold is None && w.tempo
                == v.tempo && w.work == v.work
            &&& control is ClickToggle ==> w == v.releases_click()
            &&& !(control is TempoUp || control is TempoDown || control is ClickToggle) ==> w == v
        }),
{
}

/// Each button of the right-hand column opens its own screen from the loops and asks for nothing.
pub proof fn side_buttons_open_their_screens(v: ControllerView, index: u8, now: Nanos)
    requires
        v.mode is Perform,
        index < 8,
    ensures
        ({
            let w = v.takes_gesture(SurfaceEvent::SidePressed { index }, now);
            &&& index == VOLUME_SIDE ==> w.mode is Volume
            &&& index == PAN_SIDE ==> w.mode is Pan
            &&& index == INPUT_SIDE ==> w.mode is Input
            &&& index == SETTINGS_SIDE ==> w.mode is Settings
            &&& index == MUTE_SIDE ==> w.mode is Mute
            &&& index == SOLO_SIDE ==> w.mode is Solo
            &&& index != PAUSE_SIDE ==> w.work == v.work && w.chrome == v.chrome
        }),
{
}

/// The same button closes its screen again; on the screen of the sessions to load, the one at the
/// bottom starts a fresh one.
pub proof fn side_buttons_close_their_screens(v: ControllerView, index: u8, now: Nanos)
    requires
        index < 8,
    ensures
        ({
            let w = v.takes_gesture(SurfaceEvent::SidePressed { index }, now);
            &&& index == VOLUME_SIDE && v.mode is Volume ==> w.mode is Perform
            &&& index == PAN_SIDE && v.mode is Pan ==> w.mode is Perform
            &&& index == INPUT_SIDE && v.mode is Input ==> w.mode is Perform
            &&& index == SETTINGS_SIDE && v.mode is Settings ==> w.mode is Perform
            &&& index == MUTE_SIDE && v.mode is Mute ==> w.mode is Perform
            &&& index == SOLO_SIDE && v.mode is Solo ==> w.mode is Perform
            &&& index == NEW_SIDE && v.mode is LoadPicker ==> w == v.starts_fresh()
        }),
{
}

/// A tap on the click's button turns the click on if it was off and off if it was on, and tells the
/// engine. Held for long enough it opens the click's screen instead, and letting go turns nothing.
pub proof fn the_click_button_taps_or_holds(v: ControllerView, down: Nanos, later: Nanos)
    requires
        v.mode is Perform,
        down <= later,
    ensures
        ({
            let pressed = v.presses_click(down);
            let tapped = pressed.releases_click();
            let held = pressed.opens_click_page(later);
            &&& pressed.work == v.work
            &&& pressed.chrome == v.chrome
            &&& tapped.chrome.click_enabled == !v.chrome.click_enabled
            &&& tapped.work == v.work.push(
                Work::Command(Command::SetClickEnabled(!v.chrome.click_enabled)),
            )
            &&& tapped.mode is Perform
            &&& later - down >= CLICK_HOLD ==> held.mode is Subdivision && held.releases_click().work
                == v.work && held.releases_click().chrome == v.chrome
            &&& later - down < CLICK_HOLD ==> held == pressed
        }),
{
}

/// A tempo button moves the tempo by a beat a minute in its own direction, tells the engine, and
/// remembers where it was, while no clip locks it. While one does it moves nothing.
pub proof fn a_tempo_button_moves_one(v: ControllerView, up: bool, now: Nanos)
    requires
        v.mode is Perform,
        v.tempo_hold is None,
    ensures
        ({
            let direction: i32 = if up {
                1
            } else {
                (-1) as i32
            };
            let w = v.presses_tempo(direction, now);
            let wanted = v.tempo.moved(direction as int);
            &&& v.has_clip() ==> w.tempo == v.tempo && w.work == v.work
            &&& !v.has_clip() ==> w.tempo == wanted
            &&& !v.has_clip() && wanted != v.tempo ==> w.work == v.work.push(
                Work::Command(Command::SetTempo(wanted)),
            ) && w.tempo_before_request == v.tempo
            &&& !v.has_clip() && wanted == v.tempo ==> w.work == v.work
            &&& w.chrome == v.chrome
            &&& w.mode == v.mode
        }),
{
}

/// What the engine reports is what is shown: a pad's state for that pad alone, the tempo, and the
/// signature with everything that hangs on it. Nothing else is touched, and no report asks the
/// engine to change a pad or the tempo.
pub proof fn reports_are_shown(v: ControllerView, event: Event, now: Nanos, place: int)
    requires
        v.wf(),
        0 <= place < 64,
        event matches Event::SlotChanged { addr, .. } ==> addr.wf(),
    ensures
        ({
            let w = v.takes_report(event, now);
            &&& event matches Event::SlotChanged { addr, state } ==> w.session[place] == (
            if place == addr.place() {
                state
            } else {
                v.session[place]
            }) && w.dirty && w.work == v.work && w.chrome == v.chrome
            &&& !(event is SlotChanged) ==> w.session == v.session
            &&& event matches Event::Tempo { bpm } ==> w.tempo == bpm && w.tempo_before_request
                == bpm && w.work == v.work && w.dirty
            &&& event is TempoRejected ==> w.tempo == v.tempo_before_request
            &&& !(event is Tempo || event is TempoRejected) ==> w.tempo == v.tempo
            &&& event matches Event::Beat { bar: _, beat } ==> w.chrome.beat == beat
                && w.chrome.beat_lit && w.beat_off is Some && w.work == v.work
            &&& event is TimeSignatureRejected ==> w.time_signature == v.confirmed_signature
                && w.chrome.signature == v.confirmed_signature && w.work == v.work
            &&& w.chrome.gains == v.chrome.gains
            &&& w.chrome.inputs == v.chrome.inputs
            &&& w.chrome.muted == v.chrome.muted
            &&& w.chrome.soloed == v.chrome.soloed
            &&& w.chrome.paused == v.chrome.paused
            &&& w.chrome.click_enabled == v.chrome.click_enabled
        }),
{
    if let Event::SlotChanged { addr, state: _ } = event {
        places_are_addresses(addr, place);
    }
}

/// A pickup held to a degree is the smaller of the two, track by track.
proof fn pulled_in_is_least(pickups: [u8; 8], most: int, to: int, track: int)
    requires
        0 <= to <= 8,
        0 <= track < 8,
        0 <= most <= 255,
    ensures
        pulled_in(pickups, most, to)[track] == (if track < to && pickups[track] > most {
            most as u8
        } else {
            pickups[track]
        }),
    decreases to,
{
    if to > 0 {
        pulled_in_is_least(pickups, most, to - 1, track);
    }
}

/// The units up to a sixteenth.
proof fn small_units(unit: int)
    requires
        power_of_two(unit),
        unit <= 16,
    ensures
        unit == 1 || unit == 2 || unit == 4 || unit == 8 || unit == 16,
{
    let k = choose|k: nat| k < 32 && unit == #[trigger] pow2(k);
    lemma2_to64();
    if k > 4 {
        lemma_pow2_strictly_increases(4, k);
    }
}

/// A signature the engine runs is shown, and everything that hangs on it follows: no track's pickup
/// reaches past the bar, and the click's rate is one the bar can be cut into. What fits stays as it
/// was, and what does not is told to the engine.
pub proof fn a_signature_takes_the_rest_with_it(
    v: ControllerView,
    signature: TimeSignature,
    track: int,
)
    requires
        signature.wf(),
        0 <= track < 8,
    ensures
        ({
            let w = v.adopts_signature(signature);
            let was = v.chrome.pickups[track];
            let most = if signature.beats() < SHADES {
                signature.beats() - 1
            } else {
                SHADES - 1
            };
            &&& w.time_signature == signature
            &&& w.confirmed_signature == signature
            &&& w.chrome.signature == signature
            &&& w.chrome.pickups[track] == (if was <= most {
                was as int
            } else {
                most
            })
            &&& w.chrome.pickups[track] != was ==> w.work.len() > 0 && w.work.last()
                == Work::Command(Command::SetSettings(settings_of(w.chrome)))
            &&& v.chrome.subdivision.divides(signature) ==> w.chrome.subdivision
                == v.chrome.subdivision
            &&& signature.unit() <= 16 ==> w.chrome.subdivision.divides(signature)
            &&& w.chrome.subdivision != v.chrome.subdivision ==> w.work.contains(
                Work::Command(Command::SetClickSubdivision(w.chrome.subdivision)),
            )
            &&& w.tempo == v.tempo
            &&& w.session == v.session
            &&& w.chrome.gains == v.chrome.gains
            &&& w.chrome.inputs == v.chrome.inputs
        }),
{
    let most = pickup_degrees(signature);
    let rated = (ControllerView {
        confirmed_signature: signature,
        ..v.shows_signature(signature)
    }).fits_rate(signature);
    let w = rated.pulls_pickups(most);
    assert(w == v.adopts_signature(signature));
    pulled_in_is_least(v.chrome.pickups, most, 8, track);
    if v.chrome.pickups[track] > most {
        assert(any_past(v.chrome.pickups, most, 8));
    }
    if signature.unit() <= 16 {
        small_units(signature.unit());
        fallback_fits(signature, fitting_rate(signature));
    }
    if !v.chrome.subdivision.divides(signature) {
        let asked = Work::Command(Command::SetClickSubdivision(rated.chrome.subdivision));
        assert(rated.work.last() == asked);
        let at = rated.work.len() - 1;
        assert(w.work[at] == asked);
    }
}

/// A fresh session has every track as it starts out: at unity, dead centre, on the input and in the
/// launch mode a fresh session is to have, with no pickup, handing over between its loops, and
/// nothing muted or soloed. The transport runs. The engine is told as much.
pub proof fn a_fresh_session_is_plain(v: ControllerView, track: int, place: int)
    requires
        v.default_time_signature.wf(),
        0 <= track < 8,
        0 <= place < 64,
    ensures
        ({
            let w = v.starts_fresh();
            &&& w.session[place] is Empty
            &&& w.chrome.gains[track] == UNITY_STEP
            &&& w.chrome.pans[track] == CENTRE_STEP
            &&& w.chrome.inputs[track] == v.default_input
            &&& w.chrome.launch_modes[track] == v.default_launch_mode
            &&& w.chrome.pickups[track] == 0
            &&& w.chrome.polyphony[track] is Single
            &&& w.chrome.muted == 0
            &&& w.chrome.soloed == 0
            &&& !w.chrome.paused
            &&& w.tempo == v.default_tempo
            &&& w.tempo_before_request == v.default_tempo
            &&& w.time_signature == v.default_time_signature
            &&& w.current is None
            &&& w.mode is Perform
            &&& w.chrome.click_enabled == v.chrome.click_enabled
        }),
{
    pulled_in_is_least(
        every(0),
        pickup_degrees(v.default_time_signature),
        8,
        track,
    );
}

/// A held tempo button moves the tempo again and again, by five beats a minute in its own
/// direction, once it has been down long enough and each time long enough has passed. On another
/// screen than the one it went down on it moves nothing.
pub proof fn a_held_tempo_button_repeats(v: ControllerView, now: Nanos)
    ensures
        ({
            let w = v.repeats_tempo(now);
            match v.tempo_hold {
                Some(hold) if v.mode == hold.screen && !(v.mode is TimeSignature) && now
                    >= hold.since + TEMPO_HOLD_DELAY && now >= hold.last + TEMPO_HOLD_INTERVAL => {
                    let wanted = v.tempo.moved(hold.delta as int);
                    &&& w.tempo == wanted
                    &&& wanted != v.tempo ==> w.work == v.work.push(
                        Work::Command(Command::SetTempo(wanted)),
                    )
                    &&& wanted == v.tempo ==> w.work == v.work
                    &&& w.tempo_hold is Some
                    &&& w.tempo_hold->Some_0.last == now
                    &&& w.tempo_hold->Some_0.since == hold.since
                },
                _ => w == v,
            }
        }),
        v.mode is Perform && v.tempo_hold is None && !v.has_clip() ==> {
            let up = v.presses_tempo(1, now);
            let down = v.presses_tempo((-1) as i32, now);
            &&& up.tempo_hold is Some && up.tempo_hold->Some_0.delta == 5
            &&& down.tempo_hold is Some && down.tempo_hold->Some_0.delta == -5
            &&& up.tempo_hold->Some_0.since == now && up.tempo_hold->Some_0.started_at == v.tempo
        },
{
}

/// A click rate is set by its pad if the bar can be cut into it, shown and told to the engine; a
/// rate the bar cannot be cut into does nothing.
pub proof fn a_rate_is_set_by_its_pad(v: ControllerView, rate: Subdivision, now: Nanos)
    ensures
        ({
            let w = v.presses_rate(rate, now);
            &&& !rate.divides(v.chrome.signature) ==> w == v
            &&& rate.divides(v.chrome.signature) ==> w.chrome.subdivision == rate
            &&& rate.divides(v.chrome.signature) && rate != v.chrome.subdivision ==> w.work
                == v.work.push(Work::Command(Command::SetClickSubdivision(rate)))
            &&& rate == v.chrome.subdivision ==> w.work == v.work
            &&& w.chrome.signature == v.chrome.signature
            &&& w.chrome.gains == v.chrome.gains
        }),
{
}

/// What lasts a while ends when its time has come, and not before: the beat's light, the colour
/// over the grid, and text, which is followed by nothing.
pub proof fn what_lasts_ends_in_time(v: ControllerView, now: Nanos)
    requires
        now <= LONGEST,
    ensures
        v.beat_off matches Some(until) ==> (now >= until <==> v.darkens_beat(now).beat_off is None),
        v.beat_off matches Some(until) ==> now >= until ==> !v.darkens_beat(now).chrome.beat_lit,
        v.flash matches Some(flash) ==> (now >= flash.until <==> v.ends_flash(now).flash is None),
        v.flash matches Some(flash) ==> now >= flash.until ==> (flash.follow matches Some(text)
            ==> v.ends_flash(now).text == Some(TextView::Show(text))),
        v.text_until matches Some(until) ==> (now >= until <==> v.ends_text(now).text_until is None),
        v.text_until matches Some(until) ==> now >= until ==> v.ends_text(now).text == Some(
            TextView::Stop,
        ),
        v.darkens_beat(now).work == v.work,
        v.ends_flash(now).work == v.work,
        v.ends_text(now).work == v.work,
{
}

/// A pad warns while it has been held for some while and is not emptied yet, and no other does.
pub proof fn pads_warn_before_they_empty(
    held: Seq<Option<Nanos>>,
    now: Nanos,
    to: int,
    place: int,
)
    requires
        0 <= to <= 64,
        0 <= place < 64,
    ensures
        holds_place(warned(held, now, to), place) <==> place < to && (held[place] matches Some(since)
            && since + CLEAR_WARNING <= now && now < since + CLEAR_HOLD),
    decreases to,
{
    if to <= 0 {
        none_held(place);
    } else {
        pads_warn_before_they_empty(held, now, to - 1, place);
        let before = warned(held, now, to - 1);
        let p = place as u64;
        let q = (to - 1) as u64;
        assert((before | (1u64 << q)) & (1u64 << p) != 0 <==> (before & (1u64 << p) != 0 || p == q))
            by (bit_vector)
            requires
                p < 64,
                q < 64,
        ;
    }
}

/// A saved session is the one in use and its pad holds one from then on; every other pad does what
/// it did.
pub proof fn a_saved_session_is_held(sessions: PadMask, addr: SlotAddr, other: SlotAddr)
    requires
        addr.wf(),
        other.wf(),
    ensures
        holds(sessions | (1u64 << (addr.place() as u64)), other) <==> holds(sessions, other) || other
            == addr,
{
    places_are_addresses(addr, 0);
    places_are_addresses(other, 0);
    let p = other.place() as u64;
    let q = addr.place() as u64;
    assert((sessions | (1u64 << q)) & (1u64 << p) != 0 <==> (sessions & (1u64 << p) != 0 || p == q))
        by (bit_vector)
        requires
            p < 64,
            q < 64,
    ;
}

/// Text is handed out once, and has the grid from when it is shown until it is stopped. While it
/// does there is no frame to show.
pub proof fn text_is_handed_out_once(v: ControllerView)
    ensures
        v.takes_text().text is None,
        v.text matches Some(TextView::Show(_)) ==> v.takes_text().text_running
            && !v.takes_text().has_frame(),
        v.text matches Some(TextView::Stop) ==> !v.takes_text().text_running,
        v.text is None ==> v.takes_text() == v,
        v.takes_text().work == v.work,
        v.takes_text().chrome == v.chrome,
{
}

/// Text that is running is stopped by a change of screen, and left alone without one.
pub proof fn text_goes_with_its_screen(v: ControllerView)
    ensures
        v.text_running && v.painted != v.mode ==> v.cuts_text().text == Some(TextView::Stop)
            && v.cuts_text().text_until is None,
        !v.text_running || v.painted == v.mode ==> v.cuts_text() == v,
{
}

/// Text is shown for long enough to read, and a colour for long enough to see: each until the
/// moment it is to end. What is shown of the tempo and of the signature is what they are.
pub proof fn what_is_shown_lasts(
    v: ControllerView,
    color: LedColor,
    text: Seq<char>,
    follow: Option<Seq<char>>,
    now: Nanos,
)
    requires
        now <= LONGEST,
    ensures
        v.scrolls(text, now).text == Some(TextView::Show(text)),
        v.scrolls(text, now).text_until == Some((now + 1_400_000_000) as Nanos),
        v.shows(color, now, follow).flash matches Some(flash) && flash.color == color && flash.until
            == now + 500_000_000 && flash.follow == follow,
        v.shows_tempo(now).text == Some(TextView::Show(tempo_text(v.tempo))),
        v.scrolls(text, now).work == v.work,
        v.shows(color, now, follow).work == v.work,
{
}

/// Time passing does everything that was waiting for it. A held tempo button moves the tempo, a held
/// click button opens its screen, the beat's light, the colour over the grid and text end, pads held
/// for long enough are emptied, and those on their way to it warn.
pub proof fn time_passing_does_what_waited(v: ControllerView, now: Nanos)
    requires
        v.wf(),
        now <= LONGEST,
    ensures
        ({
            let w = v.ticks(now);
            &&& w.tempo == v.repeats_tempo(now).tempo
            &&& w.mode == v.repeats_tempo(now).opens_click_page(now).mode
            &&& v.beat_off matches Some(until) ==> (if now >= until {
                w.beat_off is None && !w.chrome.beat_lit
            } else {
                w.beat_off == v.beat_off
            })
            &&& v.flash matches Some(flash) ==> (if now >= flash.until {
                w.flash is None
            } else {
                w.flash == v.flash
            })
            &&& v.flash is None ==> w.flash is None
            &&& v.text_until matches Some(until) ==> now >= until && v.flash is None ==> w.text
                == Some(TextView::Stop) && w.text_until is None
            &&& v.flash matches Some(flash) ==> now >= flash.until ==> (
            flash.follow matches Some(text) ==> w.text == Some(TextView::Show(text)))
            &&& w.warning == warned(v.held, now, 64)
            &&& forall|place: int|
                0 <= place < 64 ==> #[trigger] w.held[place] == (match v.held[place] {
                    Some(since) if now >= since + CLEAR_HOLD => None::<Nanos>,
                    _ => v.held[place],
                })
            &&& w.session == v.session
            &&& w.chrome.gains == v.chrome.gains
            &&& w.chrome.paused == v.chrome.paused
        }),
{
    let before = v.repeats_tempo(now).opens_click_page(now).darkens_beat(now).ends_flash(
        now,
    ).ends_text(now);
    emptying(before, now, 64);
    assert(before.held == v.held);
}

/// A channel pressed on its own is recorded on its own: once the first pad is let go, another one
/// of the row takes its place rather than joining it.
pub proof fn letting_go_parts_the_channels(v: ControllerView, first: SlotAddr, second: SlotAddr)
    requires
        v.wf(),
        first.wf(),
        second.wf(),
        v.input_held is None,
        first.track == second.track,
        first.slot.num() < v.chrome.input_count,
        second.slot.num() < v.chrome.input_count,
    ensures
        ({
            let let_go = v.presses_input(first).releases_pad(first);
            &&& let_go.input_held is None
            &&& let_go.work == v.presses_input(first).work
            &&& let_go.presses_input(second).chrome.inputs[first.track.num()] == TrackInput::Mono(
                second.slot.num() as u8,
            )
        }),
{
}

/// A take or a load that was refused is shown on the whole grid, in red; a load goes back to the
/// loops, and says how much it wanted. Nothing else changes.
pub proof fn refusals_are_shown_in_red(v: ControllerView, event: Event, now: Nanos)
    requires
        now <= LONGEST,
        event is RecordingRefused || event is LoadRefused,
    ensures
        ({
            let w = v.takes_report(event, now);
            &&& w.flash matches Some(flash) && flash.color is Red
            &&& event is RecordingRefused ==> w.flash->Some_0.follow is None && w.mode == v.mode
            &&& event matches Event::LoadRefused { wanted, allowed: _ } ==> w.mode is Perform
                && w.flash->Some_0.follow == Some(digits(wanted as int))
            &&& w.session == v.session
            &&& w.work == v.work
            &&& w.chrome == v.chrome
            &&& w.tempo == v.tempo
        }),
{
}

} // verus!
