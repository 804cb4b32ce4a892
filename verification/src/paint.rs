//! How each page looks, light by light.

use vstd::prelude::*;

use crate::control::{Axis, Chrome};
use crate::double::nearest_up;
use crate::ids::{holds, pad_bit, LaunchMode, PadMask, Polyphony, SlotAddr, TrackInput};
use crate::pan::{CENTRE_STEP, PAN_STEPS};
use crate::screen::{
    role, role_of, Button, Mode, Role, PICKUP_COLUMN, POLYPHONY_COLUMN, RESTART_COLUMN,
};
use crate::slot::SlotState;
use crate::surface::{Control, Led, LedColor, LedStyle, MUTE_SIDE, PAUSE_SIDE, SOLO_SIDE};
use crate::time::{Tempo, BPM_UNIT};

verus! {

/// A light that is not lit.
pub open spec fn unlit() -> Led {
    Led { color: LedColor::White, style: LedStyle::Off }
}

/// A light that stands for something chosen, or faintly for something that could be.
pub open spec fn chosen(color: LedColor, taken: bool) -> Led {
    Led {
        color,
        style: if taken {
            LedStyle::Solid
        } else {
            LedStyle::Dim
        },
    }
}

fn pick(color: LedColor, taken: bool) -> (r: Led)
    ensures
        r == chosen(color, taken),
{
    if taken {
        Led::solid(color)
    } else {
        Led::dim(color)
    }
}

/// Whether a pad would not be heard if it were playing.
pub open spec fn hushed(chrome: Chrome, addr: SlotAddr) -> bool {
    holds(chrome.muted, addr) || chrome.soloed != 0 && !holds(chrome.soloed, addr)
}

/// The light of a loop: what it is doing, in another colour where it is silenced. A silenced
/// pad that holds nothing is lit faintly, so the group reads as one.
pub open spec fn loop_light(state: SlotState, silenced: bool) -> Led {
    let color = if silenced {
        LedColor::Purple
    } else if state.recording() {
        LedColor::Red
    } else {
        LedColor::Green
    };
    match state {
        SlotState::Empty => if silenced {
            Led { color, style: LedStyle::Dim }
        } else {
            unlit()
        },
        SlotState::QueuedRecord { .. } => Led { color, style: LedStyle::Flash },
        SlotState::Recording { started_at: _, ends_at } => Led {
            color,
            style: if ends_at is Some {
                LedStyle::Flash
            } else {
                LedStyle::Solid
            },
        },
        SlotState::Stopped { .. } => Led { color, style: LedStyle::Dim },
        SlotState::QueuedPlay { .. } => Led { color, style: LedStyle::Flash },
        SlotState::Playing { .. } => Led { color, style: LedStyle::Pulse },
        SlotState::QueuedStop { .. } => Led { color, style: LedStyle::Flash },
    }
}

/// The light of the pad at `addr` among the loops.
pub fn loop_led(state: SlotState, chrome: &Chrome, addr: SlotAddr) -> (r: Led)
    ensures
        r == loop_light(state, hushed(*chrome, addr)),
{
    let bit: PadMask = pad_bit(addr);
    let silenced: bool = chrome.muted & bit != 0 || (chrome.soloed != 0 && chrome.soloed & bit == 0);
    let color: LedColor = if silenced {
        LedColor::Purple
    } else if state.is_recording() {
        LedColor::Red
    } else {
        LedColor::Green
    };
    match state {
        SlotState::Empty => if silenced {
            Led::dim(color)
        } else {
            Led::off()
        },
        SlotState::QueuedRecord { .. } => Led::flash(color),
        SlotState::Recording { ends_at, .. } => if ends_at.is_some() {
            Led::flash(color)
        } else {
            Led::solid(color)
        },
        SlotState::Stopped { .. } => Led::dim(color),
        SlotState::QueuedPlay { .. } => Led::flash(color),
        SlotState::Playing { .. } => Led::pulse(color),
        SlotState::QueuedStop { .. } => Led::flash(color),
    }
}

/// The light of a column of a level: a bar up to the step.
pub open spec fn level_light(step: u8, column: int) -> Led {
    if column <= step {
        chosen(LedColor::Green, true)
    } else {
        unlit()
    }
}

/// The light of a column of a level.
pub fn level_led(step: u8, column: usize) -> (r: Led)
    ensures
        r == level_light(step, column as int),
{
    if column <= step as usize {
        pick(LedColor::Green, true)
    } else {
        Led::off()
    }
}

/// The light of a column of a pan: where the track sits, and faintly the middle.
pub open spec fn pan_light(step: u8, column: int) -> Led {
    if column < PAN_STEPS && column == step {
        chosen(LedColor::Blue, true)
    } else if column == CENTRE_STEP {
        chosen(LedColor::Blue, false)
    } else {
        unlit()
    }
}

/// The light of a column of a pan.
pub fn pan_led(step: u8, column: usize) -> (r: Led)
    ensures
        r == pan_light(step, column as int),
{
    if column < PAN_STEPS && column == step as usize {
        pick(LedColor::Blue, true)
    } else if column == CENTRE_STEP as usize {
        pick(LedColor::Blue, false)
    } else {
        Led::off()
    }
}

/// The light of a column of an input: the channels a track records, and faintly the others the
/// device has.
pub open spec fn input_light(input: TrackInput, count: usize, column: int) -> Led {
    if column < count {
        chosen(LedColor::Amber, input.picked().contains(column as u8))
    } else {
        unlit()
    }
}

/// The light of a column of an input.
pub fn input_led(input: TrackInput, count: usize, column: u8) -> (r: Led)
    ensures
        r == input_light(input, count, column as int),
{
    if column as usize >= count {
        return Led::off();
    }
    let picked: bool = match input {
        TrackInput::Stereo => column <= 1,
        TrackInput::Mono(channel) => column == channel,
        TrackInput::Pair(left, right) => column == left || column == right,
    };
    proof {
        let picks = input.picked();
        if picked {
            assert(picks[0] == column || picks[1] == column);
        }
    }
    pick(LedColor::Amber, picked)
}

/// The light of a column of a track's settings.
pub open spec fn setting_light(chrome: Chrome, track: int, column: int) -> Led {
    if column == RESTART_COLUMN {
        chosen(LedColor::Blue, chrome.launch_modes[track] is Restart)
    } else if column == PICKUP_COLUMN {
        chosen(LedColor::Amber, chrome.pickups[track] > 0)
    } else if column == POLYPHONY_COLUMN {
        chosen(LedColor::Green, chrome.polyphony[track] is Multiple)
    } else {
        unlit()
    }
}

/// The light of a column of a track's settings.
pub fn setting_led(chrome: &Chrome, track: usize, column: usize) -> (r: Led)
    requires
        track < 8,
    ensures
        r == setting_light(*chrome, track as int, column as int),
{
    if column == RESTART_COLUMN {
        pick(LedColor::Blue, matches!(chrome.launch_modes[track], LaunchMode::Restart))
    } else if column == PICKUP_COLUMN {
        pick(LedColor::Amber, chrome.pickups[track] > 0)
    } else if column == POLYPHONY_COLUMN {
        pick(LedColor::Green, matches!(chrome.polyphony[track], Polyphony::Multiple))
    } else {
        Led::off()
    }
}

/// The light of a pad of the signature screen: as many beats as the bar has, and the note that
/// gets the beat.
pub open spec fn signature_light(chrome: Chrome, addr: SlotAddr) -> Led {
    match role_of(Mode::TimeSignature, Button::Grid(addr)) {
        Role::Beats(beats) => chosen(LedColor::Blue, beats <= chrome.signature.beats()),
        Role::Unit(unit) => chosen(LedColor::Amber, unit == chrome.signature.unit()),
        _ => unlit(),
    }
}

/// The light of a pad of the signature screen.
pub fn signature_led(chrome: &Chrome, addr: SlotAddr) -> (r: Led)
    ensures
        r == signature_light(*chrome, addr),
{
    match role(Mode::TimeSignature, Button::Grid(addr)) {
        Role::Beats(beats) => pick(LedColor::Blue, beats <= chrome.signature.beats_per_bar()),
        Role::Unit(unit) => pick(LedColor::Amber, unit == chrome.signature.beat_unit()),
        _ => Led::off(),
    }
}

/// The light of a pad of the click's page: the rate it sounds at, and faintly the others the
/// bar can be cut into.
pub open spec fn rate_light(chrome: Chrome, addr: SlotAddr) -> Led {
    match role_of(Mode::Subdivision, Button::Grid(addr)) {
        Role::Rate(rate) => if rate.divides(chrome.signature) {
            chosen(LedColor::Green, rate == chrome.subdivision)
        } else {
            unlit()
        },
        _ => unlit(),
    }
}

/// The light of a pad of the click's page.
pub fn rate_led(chrome: &Chrome, addr: SlotAddr) -> (r: Led)
    ensures
        r == rate_light(*chrome, addr),
{
    match role(Mode::Subdivision, Button::Grid(addr)) {
        Role::Rate(rate) => if rate.fits(chrome.signature) {
            pick(LedColor::Green, rate == chrome.subdivision)
        } else {
            Led::off()
        },
        _ => Led::off(),
    }
}

/// How many pads stand for a tempo, from none at the slowest to all of them at the fastest.
pub open spec fn filled_pads(tempo: Tempo) -> int {
    (nearest_up(tempo.units(), BPM_UNIT as int) - 20) * 64 / 280
}

/// The light of a pad while the tempo moves.
pub open spec fn gauge_light(tempo: Tempo, place: int) -> Led {
    if place < filled_pads(tempo) {
        chosen(LedColor::White, true)
    } else {
        unlit()
    }
}

/// The light of a pad while the tempo moves.
pub fn gauge_led(tempo: Tempo, place: usize) -> (r: Led)
    ensures
        r == gauge_light(tempo, place as int),
{
    let bpm: u32 = tempo.rounded();
    let filled: u32 = (bpm - 20) * 64 / 280;
    if place < filled as usize {
        pick(LedColor::White, true)
    } else {
        Led::off()
    }
}

/// The light of a pad while the grid asks: yes at one end of the top row, no at the other.
pub open spec fn answer_light(place: int) -> Led {
    if place == 0 {
        chosen(LedColor::Green, true)
    } else if place == 7 {
        chosen(LedColor::Red, true)
    } else {
        unlit()
    }
}

/// The light of a pad while the grid asks.
pub fn answer_led(place: usize) -> (r: Led)
    ensures
        r == answer_light(place as int),
{
    if place == 0 {
        pick(LedColor::Green, true)
    } else if place == 7 {
        pick(LedColor::Red, true)
    } else {
        Led::off()
    }
}

/// The light of a pad of a picker: lit where it holds a session, swelling where it is the one
/// in use.
pub open spec fn session_light(
    sessions: PadMask,
    current: Option<SlotAddr>,
    color: LedColor,
    addr: SlotAddr,
) -> Led {
    if !holds(sessions, addr) {
        unlit()
    } else if current == Some(addr) {
        Led { color, style: LedStyle::Pulse }
    } else {
        chosen(color, true)
    }
}

/// The colour of a picker.
pub open spec fn picker_color(control: Control) -> LedColor {
    if control is SaveSession {
        LedColor::Red
    } else {
        LedColor::Green
    }
}

/// The light of a pad of the picker a button opens.
pub fn session_led(
    sessions: PadMask,
    current: Option<SlotAddr>,
    control: Control,
    addr: SlotAddr,
) -> (r: Led)
    ensures
        r == session_light(sessions, current, picker_color(control), addr),
{
    let color: LedColor = match control {
        Control::SaveSession => LedColor::Red,
        _ => LedColor::Green,
    };
    let used: bool = match current {
        Some(pad) => pad == addr,
        None => false,
    };
    if sessions & pad_bit(addr) == 0 {
        Led::off()
    } else if used {
        Led::pulse(color)
    } else {
        pick(color, true)
    }
}

/// The light of a top-row button.
pub open spec fn control_light(control: Control, chrome: Chrome) -> Led {
    match control {
        Control::TempoUp => chosen(LedColor::White, false),
        Control::TempoDown => chosen(LedColor::White, false),
        Control::Rewind => chosen(LedColor::Blue, false),
        Control::Axis => chosen(
            if chrome.axis is Row {
                LedColor::Amber
            } else {
                LedColor::Purple
            },
            false,
        ),
        Control::LoadSession => chosen(LedColor::Green, false),
        Control::ClickToggle => chosen(LedColor::White, chrome.click_enabled),
        Control::StopAll => chosen(LedColor::Red, false),
        Control::SaveSession => chosen(LedColor::Red, false),
    }
}

/// The light of a top-row button.
pub fn control_led(control: Control, chrome: &Chrome) -> (r: Led)
    ensures
        r == control_light(control, *chrome),
{
    match control {
        Control::TempoUp => pick(LedColor::White, false),
        Control::TempoDown => pick(LedColor::White, false),
        Control::Rewind => pick(LedColor::Blue, false),
        Control::Axis => match chrome.axis {
            Axis::Row => pick(LedColor::Amber, false),
            Axis::Column => pick(LedColor::Purple, false),
        },
        Control::LoadSession => pick(LedColor::Green, false),
        Control::ClickToggle => pick(LedColor::White, chrome.click_enabled),
        Control::StopAll => pick(LedColor::Red, false),
        Control::SaveSession => pick(LedColor::Red, false),
    }
}

/// The light of a right-hand button: the transport says whether it is frozen, and mute and solo
/// whether anything is.
pub open spec fn side_button_light(index: int, chrome: Chrome) -> Led {
    if index == PAUSE_SIDE {
        chosen(
            if chrome.paused {
                LedColor::Red
            } else {
                LedColor::Green
            },
            true,
        )
    } else if index == MUTE_SIDE {
        chosen(LedColor::Purple, chrome.muted != 0)
    } else if index == SOLO_SIDE {
        chosen(LedColor::Blue, chrome.soloed != 0)
    } else {
        chosen(LedColor::White, false)
    }
}

/// The light of a right-hand button.
pub fn side_button_led(index: usize, chrome: &Chrome) -> (r: Led)
    ensures
        r == side_button_light(index as int, *chrome),
{
    if index == PAUSE_SIDE {
        if chrome.paused {
            pick(LedColor::Red, true)
        } else {
            pick(LedColor::Green, true)
        }
    } else if index == MUTE_SIDE {
        pick(LedColor::Purple, chrome.muted != 0)
    } else if index == SOLO_SIDE {
        pick(LedColor::Blue, chrome.soloed != 0)
    } else {
        pick(LedColor::White, false)
    }
}

} // verus!
