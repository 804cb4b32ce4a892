//! What the lights tell: every light said of what it stands for.

use vstd::prelude::*;

use crate::control::{
    control_at, marked, page_light, pictured, selected, settings_of, top_light, Axis, Chrome,
    ControllerView,
};
use crate::ids::{holds, holds_place, places_are_addresses, SlotAddr, TrackInput};
use crate::paint::{
    control_light, filled_pads, gauge_light, hushed, input_light, level_light, loop_light,
    pan_light, rate_light, session_light, setting_light, side_button_light, signature_light,
};
use crate::screen::{
    is_way_out, rate_of, role_of, Button, BEATS_ROW, PICKUP_COLUMN, POLYPHONY_COLUMN,
    RESTART_COLUMN, SUBDIVISION_ROW, UNIT_ROW,
};
use crate::slot::SlotState;
use crate::surface::{
    Control, Led, LedColor, FIRST_BEAT_LED, MUTE_SIDE, PAUSE_SIDE, SOLO_SIDE,
};
use crate::time::{units_in_range, Tempo, BPM_UNIT};
use crate::transport::{with_settings, EngineView};

verus! {

/// A loop's light tells what the loop does. It flashes while something waits for a bar line, pulses
/// while the loop plays, is steady while it records, is dim while it stands still, and is dark
/// where there is none. It is red from arming a take to its end, and purple where the pad would
/// not be heard.
pub proof fn a_loop_light_tells_the_loop(state: SlotState, silenced: bool)
    ensures
        ({
            let light = loop_light(state, silenced);
            &&& light.style is Flash <==> state.pending()
            &&& light.style is Pulse <==> state is Playing
            &&& light.style is Solid <==> state is Recording && !state.pending()
            &&& light.style is Off <==> state is Empty && !silenced
            &&& light.style is Dim <==> state is Stopped || state is Empty && silenced
            &&& !(light.style is Off) ==> (light.color is Purple <==> silenced)
            &&& !silenced ==> (light.color is Red <==> state.recording())
            &&& !silenced && state.held() is Some ==> light.color is Green
        }),
{
}

/// A pad is shown as silenced exactly if the engine, once it has taken what is shown, would not
/// play it.
pub proof fn what_is_shown_silenced_is_not_heard<S>(
    chrome: Chrome,
    v: EngineView<S>,
    addr: SlotAddr,
)
    requires
        addr.wf(),
    ensures
        hushed(chrome, addr) <==> !with_settings(v, settings_of(chrome)).audible(addr.place()),
{
}

/// A row of levels is lit up to its track's level and no further; a place across the field is the
/// one bright light of its row, with the centre dim where it is not.
pub proof fn rows_show_their_step(step: u8, column: int)
    requires
        0 <= column < 8,
    ensures
        level_light(step, column).style is Solid <==> column <= step,
        level_light(step, column).style is Off <==> column > step,
        step < 7 ==> (pan_light(step, column).style is Solid <==> column == step),
        step < 7 ==> (pan_light(step, column).style is Dim <==> column == 3 && step != 3),
{
}

/// An input's light is bright if its track records the channel, dim if it could, and dark if the
/// device does not have it.
pub proof fn input_lights_show_the_channels(input: TrackInput, count: usize, column: int)
    requires
        0 <= column < 8,
    ensures
        ({
            let light = input_light(input, count, column);
            let taken = match input {
                TrackInput::Stereo => column == 0 || column == 1,
                TrackInput::Mono(channel) => column == channel,
                TrackInput::Pair(left, right) => column == left || column == right,
            };
            &&& light.style is Off <==> column >= count
            &&& column < count ==> (light.style is Solid <==> taken)
            &&& column < count ==> (light.style is Dim <==> !taken)
        }),
{
    let picks = input.picked();
    let here = column as u8;
    match input {
        TrackInput::Stereo => {
            assert(picks[0] == 0 && picks[1] == 1);
        },
        TrackInput::Mono(channel) => {
            assert(picks[0] == channel);
        },
        TrackInput::Pair(left, right) => {
            assert(picks[0] == left && picks[1] == right);
        },
    }
    if picks.contains(here) {
        let i = choose|i: int| 0 <= i < picks.len() && picks[i] == here;
        assert(picks[i] == here);
    }
}

/// The tempo's gauge is empty at the slowest and full at the fastest, and never falls as the tempo
/// climbs.
pub proof fn the_gauge_climbs_with_the_tempo(slower: Tempo, faster: Tempo)
    requires
        slower.wf(),
        faster.wf(),
        slower.units() <= faster.units(),
    ensures
        0 <= filled_pads(slower) <= filled_pads(faster) <= 64,
        slower.units() == 20 * BPM_UNIT ==> filled_pads(slower) == 0,
        faster.units() == 300 * BPM_UNIT ==> filled_pads(faster) == 64,
        forall|place: int|
            0 <= place < 64 ==> ((#[trigger] gauge_light(slower, place)).style is Solid <==> place
                < filled_pads(slower)),
{
    units_in_range(slower);
    units_in_range(faster);
}

/// A session's light is dark where there is none, pulses for the one in use and is steady for the
/// others.
pub proof fn session_lights_show_the_sessions(
    sessions: u64,
    current: Option<SlotAddr>,
    color: LedColor,
    addr: SlotAddr,
)
    ensures
        ({
            let light = session_light(sessions, current, color, addr);
            &&& light.style is Off <==> !holds(sessions, addr)
            &&& holds(sessions, addr) ==> (light.style is Pulse <==> current == Some(addr))
            &&& holds(sessions, addr) ==> light.color == color
        }),
{
}

/// The side lights tell whether the transport is frozen, and whether anything is muted or soloed.
pub proof fn side_lights_tell_the_state(chrome: Chrome)
    ensures
        side_button_light(PAUSE_SIDE as int, chrome).color is Red <==> chrome.paused,
        side_button_light(PAUSE_SIDE as int, chrome).color is Green <==> !chrome.paused,
        side_button_light(MUTE_SIDE as int, chrome).style is Solid <==> chrome.muted != 0,
        side_button_light(SOLO_SIDE as int, chrome).style is Solid <==> chrome.soloed != 0,
{
}

/// A frame shows each pad as its page does, under what is marked on it: an answer over the whole
/// grid, or a pad that is about to be emptied. On the loops with neither, each pad is its loop's
/// light.
pub proof fn a_frame_shows_its_page(v: ControllerView, place: int)
    requires
        0 <= place < 64,
    ensures
        ({
            let frame = marked(v, pictured(v, v.page()));
            &&& frame.pads.len() == 64
            &&& v.flash matches Some(flash) ==> frame.pads[place].color == flash.color
                && frame.pads[place].style is Solid
            &&& v.flash is None && holds_place(v.warning, place) ==> frame.pads[place].color is White
                && frame.pads[place].style is Flash
            &&& v.flash is None && !holds_place(v.warning, place) ==> frame.pads[place]
                == page_light(v, v.page(), place)
            &&& v.mode is Perform && !v.repeating() ==> page_light(v, v.page(), place) == loop_light(
                v.session[place],
                hushed(v.chrome, SlotAddr::at(place)),
            )
            &&& v.mode is Volume ==> page_light(v, v.page(), place) == level_light(
                v.chrome.gains[place / 8],
                place % 8,
            )
            &&& v.mode is Pan ==> page_light(v, v.page(), place) == pan_light(
                v.chrome.pans[place / 8],
                place % 8,
            )
            &&& v.mode is Input ==> page_light(v, v.page(), place) == input_light(
                v.chrome.inputs[place / 8],
                v.chrome.input_count,
                place % 8,
            )
            &&& v.mode is Settings ==> page_light(v, v.page(), place) == setting_light(
                v.chrome,
                place / 8,
                place % 8,
            )
        }),
{
    places_are_addresses(SlotAddr::at(place), place);
}

/// The top row tells what its buttons are for. A way out of the screen blinks. One button shows the
/// beat while it is lit, red on the first of a bar. A button with no part to play is dark. A tempo
/// button that is held is lit, and blinks while it repeats.
pub proof fn the_top_row_tells_its_buttons(v: ControllerView, control: Control, page: Led)
    ensures
        ({
            let light = top_light(v, control, page);
            let held = v.tempo_hold matches Some(hold) && v.mode == hold.screen && hold.button
                == control;
            let out = is_way_out(v.mode, Button::Top(control));
            let beats = control.place() == FIRST_BEAT_LED && v.chrome.beat_lit;
            &&& held ==> light.color == selected() && (light.style is Flash <==> v.repeating())
            &&& !held && out ==> light.color == selected() && light.style is Flash
            &&& !held && !out && beats ==> light.style is Solid && (light.color is Red
                <==> v.chrome.beat == 0)
            &&& !held && !out && !beats && role_of(v.mode, Button::Top(control)) is Inert
                ==> light.style is Off
            &&& !held && !out && !beats && !(role_of(v.mode, Button::Top(control)) is Inert)
                ==> light == page
        }),
{
}

/// The lights of the top row stand over their own buttons.
pub proof fn buttons_have_their_own_light(place: int)
    requires
        0 <= place < 8,
    ensures
        control_at(place).place() == place,
{
}

/// The click's light is bright while the click is on.
pub proof fn the_click_light_tells_the_click(chrome: Chrome)
    ensures
        control_light(Control::ClickToggle, chrome).style is Solid <==> chrome.click_enabled,
        control_light(Control::Axis, Chrome { axis: Axis::Row, ..chrome }).color != control_light(
            Control::Axis,
            Chrome { axis: Axis::Column, ..chrome },
        ).color,
{
}

/// A settings light is bright while its setting is on: the track restarts, opens from its tail, or
/// sounds more than one loop.
pub proof fn setting_lights_tell_the_settings(chrome: Chrome, track: int)
    requires
        0 <= track < 8,
    ensures
        setting_light(chrome, track, RESTART_COLUMN as int).style is Solid
            <==> chrome.launch_modes[track] is Restart,
        setting_light(chrome, track, PICKUP_COLUMN as int).style is Solid <==> chrome.pickups[track]
            > 0,
        setting_light(chrome, track, POLYPHONY_COLUMN as int).style is Solid
            <==> chrome.polyphony[track] is Multiple,
{
}

/// The signature's lights count its beats and name its unit; the rate's light is the one in use,
/// and a rate the bar cannot be cut into is dark.
pub proof fn time_lights_tell_the_time(chrome: Chrome, addr: SlotAddr)
    requires
        addr.wf(),
    ensures
        addr.track.num() == BEATS_ROW ==> (signature_light(chrome, addr).style is Solid
            <==> addr.slot.num() + 1 <= chrome.signature.beats()),
        addr.track.num() == UNIT_ROW && addr.slot.num() == 1 ==> (signature_light(
            chrome,
            addr,
        ).style is Solid <==> chrome.signature.unit() == 4),
        addr.track.num() == SUBDIVISION_ROW ==> (rate_light(chrome, addr).style is Off
            <==> !rate_of(addr.slot.num()).divides(chrome.signature)),
        addr.track.num() == SUBDIVISION_ROW && rate_of(addr.slot.num()).divides(chrome.signature)
            ==> (rate_light(chrome, addr).style is Solid <==> rate_of(addr.slot.num())
            == chrome.subdivision),
{
}

} // verus!
