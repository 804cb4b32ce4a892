//! What each button does on the screen the surface is showing.
//!
//! A screen owns every button, not only the grid: a button with no part to play on the
//! screen you are on does nothing, so there is no way to reach solo from mute without
//! leaving mute first. The transport is the one exception, live everywhere.

use vstd::prelude::*;
use vstd::string::*;

use crate::grid::Subdivision;
use crate::ids::SlotAddr;
use crate::pan::PAN_STEPS;
use crate::surface::{
    Control, INPUT_SIDE, MUTE_SIDE, NEW_SIDE, PAN_SIDE, PAUSE_SIDE, SETTINGS_SIDE, SOLO_SIDE,
    VOLUME_SIDE,
};
use crate::text::{decimal, digits};

verus! {

/// The column of the settings screen that says where launches are anchored.
pub const RESTART_COLUMN: usize = 0;

/// The column of the settings screen that opens loops from their tail.
pub const PICKUP_COLUMN: usize = 1;

/// The column of the settings screen that lets loops sound together.
pub const POLYPHONY_COLUMN: usize = 2;

/// The row of the signature screen that sets the beats to the bar.
pub const BEATS_ROW: usize = 2;

/// The row of the signature screen that sets the note that gets the beat.
pub const UNIT_ROW: usize = 5;

/// The row of the click screen that sets how often it sounds.
pub const SUBDIVISION_ROW: usize = 3;

/// What the grid is showing.
#[derive(Debug, Clone, Copy, PartialEq, Eq, Structural)]
pub enum Mode {
    /// The loops.
    Perform,
    /// Sessions, waiting for one to be chosen to save over.
    SavePicker,
    /// Sessions, waiting for one to be chosen to load.
    LoadPicker,
    /// Which pads are silenced.
    Mute,
    /// Which pads are soloed.
    Solo,
    /// How loud each track plays.
    Volume,
    /// Where each track sits across the stereo field.
    Pan,
    /// Which input each track records.
    Input,
    /// One row of settings per track.
    Settings,
    /// Beats to the bar and the note that gets the beat.
    TimeSignature,
    /// How often the click sounds.
    Subdivision,
    /// Waiting for yes or no before saving over the pad it holds.
    ConfirmSave(SlotAddr),
    /// Waiting for yes or no before loading over what is on the grid.
    ConfirmLoad(SlotAddr),
}

/// One button on the surface.
#[derive(Debug, Clone, Copy, PartialEq, Eq, Structural)]
pub enum Button {
    /// A pad in the eight by eight grid.
    Grid(SlotAddr),
    /// A button in the top row.
    Top(Control),
    /// A button in the right-hand column, top to bottom.
    Side(usize),
}

/// What pressing a button does on the screen it is on.
#[derive(Debug, Clone, Copy, PartialEq, Eq, Structural)]
pub enum Role {
    /// Nothing on this screen.
    Inert,
    /// Freezes or resumes the transport.
    Transport,
    /// A loop: tap to launch or stop, hold to empty.
    Loop,
    /// Yes or no to what the screen is asking.
    Answer,
    /// The session to save over.
    SaveTo,
    /// The session to load.
    LoadFrom,
    /// Starts again from nothing.
    NewSession,
    /// Silences or soloes a pad's group.
    Group,
    /// How loud a track plays.
    Level,
    /// Where a track sits across the stereo field.
    Pan,
    /// The input a track records.
    InputChannel,
    /// One of a track's settings.
    Setting,
    /// Beats to the bar.
    Beats(u32),
    /// The note that gets the beat.
    Unit(u32),
    /// How often the click sounds.
    Rate(Subdivision),
    /// Moves the tempo up by one or down by one, and opens or closes the signature screen when
    /// both are held.
    Tempo(i32),
    /// Turns the click on or off, and opens or closes its own screen when held.
    Click,
    /// Stops everything.
    StopAll,
    /// Sends the transport back to the start.
    Rewind,
    /// Flips whether mute and solo group by row or column.
    Axis,
    /// Opens that screen, or leaves it if it is the one showing.
    Open(Mode),
}

/// The click rate each column of its row stands for.
pub open spec fn rate_of(column: int) -> Subdivision {
    if column == 0 {
        Subdivision::Whole
    } else if column == 1 {
        Subdivision::Half
    } else if column == 2 {
        Subdivision::HalfTriplet
    } else if column == 3 {
        Subdivision::Quarter
    } else if column == 4 {
        Subdivision::QuarterTriplet
    } else if column == 5 {
        Subdivision::Eighth
    } else if column == 6 {
        Subdivision::EighthTriplet
    } else {
        Subdivision::Sixteenth
    }
}

/// What a grid pad means on a screen.
pub open spec fn grid_role(mode: Mode, addr: SlotAddr) -> Role {
    let row = addr.track.num();
    let column = addr.slot.num();
    match mode {
        Mode::Perform => Role::Loop,
        Mode::SavePicker => Role::SaveTo,
        Mode::LoadPicker => Role::LoadFrom,
        Mode::ConfirmSave(_) => Role::Answer,
        Mode::ConfirmLoad(_) => Role::Answer,
        Mode::Mute => Role::Group,
        Mode::Solo => Role::Group,
        Mode::Volume => Role::Level,
        Mode::Pan => Role::Pan,
        Mode::Input => Role::InputChannel,
        Mode::Settings => Role::Setting,
        Mode::TimeSignature => if row == BEATS_ROW {
            Role::Beats((column + 1) as u32)
        } else if row == UNIT_ROW && column == 0 {
            Role::Unit(2)
        } else if row == UNIT_ROW && column == 1 {
            Role::Unit(4)
        } else if row == UNIT_ROW && column == 2 {
            Role::Unit(8)
        } else if row == UNIT_ROW && column == 3 {
            Role::Unit(16)
        } else {
            Role::Inert
        },
        Mode::Subdivision => if row == SUBDIVISION_ROW {
            Role::Rate(rate_of(column))
        } else {
            Role::Inert
        },
    }
}

/// What a button in the top row means on a screen.
pub open spec fn top_role(mode: Mode, control: Control) -> Role {
    match control {
        // On the loops these move the tempo; held together they open the signature
        // screen, and do the same again to leave it.
        Control::TempoDown => if mode is Perform || mode is TimeSignature {
            Role::Tempo((-1) as i32)
        } else {
            Role::Inert
        },
        Control::TempoUp => if mode is Perform || mode is TimeSignature {
            Role::Tempo(1)
        } else {
            Role::Inert
        },
        Control::ClickToggle => if mode is Perform || mode is Subdivision {
            Role::Click
        } else {
            Role::Inert
        },
        Control::StopAll => if mode is Perform {
            Role::StopAll
        } else {
            Role::Inert
        },
        Control::Rewind => if mode is Perform {
            Role::Rewind
        } else {
            Role::Inert
        },
        // It says what a pad on the mute and solo screens silences, so it belongs on them.
        Control::Axis => if mode is Perform || mode is Mute || mode is Solo {
            Role::Axis
        } else {
            Role::Inert
        },
        Control::SaveSession => if mode is Perform || mode is SavePicker || mode is ConfirmSave {
            Role::Open(Mode::SavePicker)
        } else {
            Role::Inert
        },
        Control::LoadSession => if mode is Perform || mode is LoadPicker || mode is ConfirmLoad {
            Role::Open(Mode::LoadPicker)
        } else {
            Role::Inert
        },
    }
}

/// What a button in the right-hand column means on a screen.
pub open spec fn side_role(mode: Mode, index: int) -> Role {
    if index == NEW_SIDE && mode is LoadPicker {
        Role::NewSession
    } else if index == VOLUME_SIDE && (mode is Perform || mode is Volume) {
        Role::Open(Mode::Volume)
    } else if index == PAN_SIDE && (mode is Perform || mode is Pan) {
        Role::Open(Mode::Pan)
    } else if index == INPUT_SIDE && (mode is Perform || mode is Input) {
        Role::Open(Mode::Input)
    } else if index == SETTINGS_SIDE && (mode is Perform || mode is Settings) {
        Role::Open(Mode::Settings)
    } else if index == MUTE_SIDE && (mode is Perform || mode is Mute) {
        Role::Open(Mode::Mute)
    } else if index == SOLO_SIDE && (mode is Perform || mode is Solo) {
        Role::Open(Mode::Solo)
    } else {
        Role::Inert
    }
}

/// What a button does on a screen. The music has to be stoppable from anywhere, so one button
/// is the transport's on every screen.
pub open spec fn role_of(mode: Mode, button: Button) -> Role {
    match button {
        Button::Grid(addr) => grid_role(mode, addr),
        Button::Top(control) => top_role(mode, control),
        Button::Side(index) => if index == PAUSE_SIDE {
            Role::Transport
        } else {
            side_role(mode, index as int)
        },
    }
}

/// What `button` does on `mode`.
pub fn role(mode: Mode, button: Button) -> (r: Role)
    ensures
        r == role_of(mode, button),
{
    match button {
        Button::Grid(addr) => grid(mode, addr),
        Button::Top(control) => top(mode, control),
        Button::Side(index) => if index == PAUSE_SIDE {
            // The one control every screen keeps.
            Role::Transport
        } else {
            side(mode, index)
        },
    }
}

fn grid(mode: Mode, addr: SlotAddr) -> (r: Role)
    ensures
        r == grid_role(mode, addr),
{
    let row: usize = addr.track.index();
    let column: usize = addr.slot.index();
    match mode {
        Mode::Perform => Role::Loop,
        Mode::SavePicker => Role::SaveTo,
        Mode::LoadPicker => Role::LoadFrom,
        Mode::ConfirmSave(_) => Role::Answer,
        Mode::ConfirmLoad(_) => Role::Answer,
        Mode::Mute => Role::Group,
        Mode::Solo => Role::Group,
        Mode::Volume => Role::Level,
        Mode::Pan => Role::Pan,
        Mode::Input => Role::InputChannel,
        Mode::Settings => Role::Setting,
        Mode::TimeSignature => if row == BEATS_ROW {
            Role::Beats(column as u32 + 1)
        } else if row == UNIT_ROW {
            match column {
                0 => Role::Unit(2),
                1 => Role::Unit(4),
                2 => Role::Unit(8),
                3 => Role::Unit(16),
                _ => Role::Inert,
            }
        } else {
            Role::Inert
        },
        Mode::Subdivision => if row == SUBDIVISION_ROW {
            Role::Rate(
                match column {
                    0 => Subdivision::Whole,
                    1 => Subdivision::Half,
                    2 => Subdivision::HalfTriplet,
                    3 => Subdivision::Quarter,
                    4 => Subdivision::QuarterTriplet,
                    5 => Subdivision::Eighth,
                    6 => Subdivision::EighthTriplet,
                    _ => Subdivision::Sixteenth,
                },
            )
        } else {
            Role::Inert
        },
    }
}

fn top(mode: Mode, control: Control) -> (r: Role)
    ensures
        r == top_role(mode, control),
{
    match (mode, control) {
        (Mode::Perform, Control::TempoDown) => Role::Tempo(-1),
        (Mode::TimeSignature, Control::TempoDown) => Role::Tempo(-1),
        (Mode::Perform, Control::TempoUp) => Role::Tempo(1),
        (Mode::TimeSignature, Control::TempoUp) => Role::Tempo(1),
        (Mode::Perform, Control::ClickToggle) => Role::Click,
        (Mode::Subdivision, Control::ClickToggle) => Role::Click,
        (Mode::Perform, Control::StopAll) => Role::StopAll,
        (Mode::Perform, Control::Rewind) => Role::Rewind,
        (Mode::Perform, Control::Axis) => Role::Axis,
        (Mode::Mute, Control::Axis) => Role::Axis,
        (Mode::Solo, Control::Axis) => Role::Axis,
        (Mode::Perform, Control::SaveSession) => Role::Open(Mode::SavePicker),
        (Mode::SavePicker, Control::SaveSession) => Role::Open(Mode::SavePicker),
        (Mode::ConfirmSave(_), Control::SaveSession) => Role::Open(Mode::SavePicker),
        (Mode::Perform, Control::LoadSession) => Role::Open(Mode::LoadPicker),
        (Mode::LoadPicker, Control::LoadSession) => Role::Open(Mode::LoadPicker),
        (Mode::ConfirmLoad(_), Control::LoadSession) => Role::Open(Mode::LoadPicker),
        _ => Role::Inert,
    }
}

fn side(mode: Mode, index: usize) -> (r: Role)
    ensures
        r == side_role(mode, index as int),
{
    let perform: bool = matches!(mode, Mode::Perform);
    if index == NEW_SIDE && matches!(mode, Mode::LoadPicker) {
        Role::NewSession
    } else if index == VOLUME_SIDE && (perform || matches!(mode, Mode::Volume)) {
        Role::Open(Mode::Volume)
    } else if index == PAN_SIDE && (perform || matches!(mode, Mode::Pan)) {
        Role::Open(Mode::Pan)
    } else if index == INPUT_SIDE && (perform || matches!(mode, Mode::Input)) {
        Role::Open(Mode::Input)
    } else if index == SETTINGS_SIDE && (perform || matches!(mode, Mode::Settings)) {
        Role::Open(Mode::Settings)
    } else if index == MUTE_SIDE && (perform || matches!(mode, Mode::Mute)) {
        Role::Open(Mode::Mute)
    } else if index == SOLO_SIDE && (perform || matches!(mode, Mode::Solo)) {
        Role::Open(Mode::Solo)
    } else {
        Role::Inert
    }
}

/// The buttons that leave a screen.
pub open spec fn ways_out(mode: Mode) -> (Option<Button>, Option<Button>) {
    match mode {
        Mode::Perform => (None, None),
        Mode::Volume => (Some(Button::Side(VOLUME_SIDE)), None),
        Mode::Pan => (Some(Button::Side(PAN_SIDE)), None),
        Mode::Input => (Some(Button::Side(INPUT_SIDE)), None),
        Mode::Settings => (Some(Button::Side(SETTINGS_SIDE)), None),
        Mode::Mute => (Some(Button::Side(MUTE_SIDE)), None),
        Mode::Solo => (Some(Button::Side(SOLO_SIDE)), None),
        Mode::SavePicker => (Some(Button::Top(Control::SaveSession)), None),
        Mode::ConfirmSave(_) => (Some(Button::Top(Control::SaveSession)), None),
        Mode::LoadPicker => (Some(Button::Top(Control::LoadSession)), None),
        Mode::ConfirmLoad(_) => (Some(Button::Top(Control::LoadSession)), None),
        Mode::Subdivision => (Some(Button::Top(Control::ClickToggle)), None),
        // Both together, which is what opened it.
        Mode::TimeSignature => (
            Some(Button::Top(Control::TempoDown)),
            Some(Button::Top(Control::TempoUp)),
        ),
    }
}

/// Whether a button leaves a screen.
pub open spec fn is_way_out(mode: Mode, button: Button) -> bool {
    ways_out(mode).0 == Some(button) || ways_out(mode).1 == Some(button)
}

/// The buttons that leave `mode`, which paint as waiting so the way out always shows.
///
/// Empty on [`Mode::Perform`], which is the screen there is nothing to leave.
pub fn exits(mode: Mode) -> (r: (Option<Button>, Option<Button>))
    ensures
        r == ways_out(mode),
{
    match mode {
        Mode::Perform => (None, None),
        Mode::Volume => (Some(Button::Side(VOLUME_SIDE)), None),
        Mode::Pan => (Some(Button::Side(PAN_SIDE)), None),
        Mode::Input => (Some(Button::Side(INPUT_SIDE)), None),
        Mode::Settings => (Some(Button::Side(SETTINGS_SIDE)), None),
        Mode::Mute => (Some(Button::Side(MUTE_SIDE)), None),
        Mode::Solo => (Some(Button::Side(SOLO_SIDE)), None),
        Mode::SavePicker => (Some(Button::Top(Control::SaveSession)), None),
        Mode::ConfirmSave(_) => (Some(Button::Top(Control::SaveSession)), None),
        Mode::LoadPicker => (Some(Button::Top(Control::LoadSession)), None),
        Mode::ConfirmLoad(_) => (Some(Button::Top(Control::LoadSession)), None),
        Mode::Subdivision => (Some(Button::Top(Control::ClickToggle)), None),
        Mode::TimeSignature => (
            Some(Button::Top(Control::TempoDown)),
            Some(Button::Top(Control::TempoUp)),
        ),
    }
}

/// What a screen is called.
pub open spec fn titled(mode: Mode) -> Seq<char> {
    match mode {
        Mode::Perform => "the loops"@,
        Mode::SavePicker => "save"@,
        Mode::ConfirmSave(_) => "save"@,
        Mode::LoadPicker => "load"@,
        Mode::ConfirmLoad(_) => "load"@,
        Mode::Mute => "mute"@,
        Mode::Solo => "solo"@,
        Mode::Volume => "volume"@,
        Mode::Pan => "pan"@,
        Mode::Input => "input"@,
        Mode::Settings => "settings"@,
        Mode::TimeSignature => "time signature"@,
        Mode::Subdivision => "click rate"@,
    }
}

/// What this screen is called, for naming the way out of it.
pub fn title(mode: Mode) -> (r: &'static str)
    ensures
        r@ == titled(mode),
{
    match mode {
        Mode::Perform => "the loops",
        Mode::SavePicker => "save",
        Mode::ConfirmSave(_) => "save",
        Mode::LoadPicker => "load",
        Mode::ConfirmLoad(_) => "load",
        Mode::Mute => "mute",
        Mode::Solo => "solo",
        Mode::Volume => "volume",
        Mode::Pan => "pan",
        Mode::Input => "input",
        Mode::Settings => "settings",
        Mode::TimeSignature => "time signature",
        Mode::Subdivision => "click rate",
    }
}

/// What a pad is called on a screen, if a press on it does anything.
pub open spec fn pad_called(mode: Mode, addr: SlotAddr) -> Option<Seq<char>> {
    let track = digits(addr.track.num());
    let slot = digits(addr.slot.num());
    match grid_role(mode, addr) {
        Role::Loop => Some("loop "@ + track + ","@ + slot),
        Role::Answer => if addr.track.num() == 0 && addr.slot.num() == 0 {
            Some("yes"@)
        } else if addr.track.num() == 0 && addr.slot.num() == 7 {
            Some("no"@)
        } else {
            None
        },
        Role::SaveTo => Some("save over "@ + track + slot),
        Role::LoadFrom => Some("load "@ + track + slot),
        Role::Group => Some(titled(mode) + " "@ + track + ","@ + slot),
        Role::Level => Some("track "@ + track + " level "@ + digits(addr.slot.num() + 1)),
        Role::Pan => if addr.slot.num() < PAN_STEPS {
            Some("track "@ + track + " pan "@ + digits(addr.slot.num() + 1))
        } else {
            None
        },
        Role::InputChannel => Some("track "@ + track + " input "@ + slot),
        Role::Setting => if addr.slot.num() == RESTART_COLUMN {
            Some("track "@ + track + " restart"@)
        } else if addr.slot.num() == PICKUP_COLUMN {
            Some("track "@ + track + " pickup"@)
        } else if addr.slot.num() == POLYPHONY_COLUMN {
            Some("track "@ + track + " polyphony"@)
        } else {
            None
        },
        Role::Beats(beats) => Some(digits(beats as int) + " beats to the bar"@),
        Role::Unit(unit) => Some("beat is a 1/"@ + digits(unit as int) + " note"@),
        Role::Rate(rate) => Some("click "@ + rate.called()),
        _ => None,
    }
}

/// What a button is called on a screen, if a press on it does anything.
pub open spec fn called(mode: Mode, button: Button) -> Option<Seq<char>> {
    if is_way_out(mode, button) {
        Some("leave "@ + titled(mode))
    } else {
        match button {
            Button::Grid(addr) => pad_called(mode, addr),
            _ => match role_of(mode, button) {
                Role::Transport => Some("play / pause"@),
                Role::NewSession => Some("new session"@),
                Role::Tempo(direction) => if direction > 0 {
                    Some("tempo up"@)
                } else {
                    Some("tempo down"@)
                },
                Role::Click => Some("click on or off"@),
                Role::StopAll => Some("stop all"@),
                Role::Rewind => Some("rewind"@),
                Role::Axis => Some("group by row or column"@),
                Role::Open(opens) => Some("open "@ + titled(opens)),
                _ => None,
            },
        }
    }
}

/// What a string says, if there is one.
pub open spec fn said(text: Option<String>) -> Option<Seq<char>> {
    match text {
        Some(text) => Some(text@),
        None => None,
    }
}

/// A few words with numbers between them.
fn words(first: &str, second: &str, third: &str, fourth: &str) -> (r: String)
    ensures
        r@ == first@ + second@ + third@ + fourth@,
{
    let mut text: String = String::from_str(first);
    text.append(second);
    text.append(third);
    text.append(fourth);
    text
}

fn pad_name(mode: Mode, addr: SlotAddr) -> (r: Option<String>)
    ensures
        said(r) == pad_called(mode, addr),
{
    let row: usize = addr.track.index();
    let column: usize = addr.slot.index();
    let track: String = decimal(row as u64);
    let slot: String = decimal(column as u64);
    let next: String = decimal(column as u64 + 1);
    proof {
        reveal_strlit("");
        assert(""@ =~= Seq::empty());
    }
    let r: Option<String> = match grid(mode, addr) {
        Role::Loop => Some(words("loop ", track.as_str(), ",", slot.as_str())),
        Role::Answer => if row == 0 && column == 0 {
            Some(String::from_str("yes"))
        } else if row == 0 && column == 7 {
            Some(String::from_str("no"))
        } else {
            None
        },
        Role::SaveTo => Some(words("save over ", track.as_str(), slot.as_str(), "")),
        Role::LoadFrom => Some(words("load ", track.as_str(), slot.as_str(), "")),
        Role::Group => {
            let mut text: String = words(title(mode), " ", track.as_str(), ",");
            text.append(slot.as_str());
            Some(text)
        },
        Role::Level => Some(words("track ", track.as_str(), " level ", next.as_str())),
        Role::Pan => if column < PAN_STEPS {
            Some(words("track ", track.as_str(), " pan ", next.as_str()))
        } else {
            None
        },
        Role::InputChannel => Some(words("track ", track.as_str(), " input ", slot.as_str())),
        Role::Setting => if column == RESTART_COLUMN {
            Some(words("track ", track.as_str(), " restart", ""))
        } else if column == PICKUP_COLUMN {
            Some(words("track ", track.as_str(), " pickup", ""))
        } else if column == POLYPHONY_COLUMN {
            Some(words("track ", track.as_str(), " polyphony", ""))
        } else {
            None
        },
        Role::Beats(beats) => {
            let mut text: String = decimal(beats as u64);
            text.append(" beats to the bar");
            Some(text)
        },
        Role::Unit(unit) => {
            let count: String = decimal(unit as u64);
            Some(words("beat is a 1/", count.as_str(), " note", ""))
        },
        Role::Rate(rate) => Some(words("click ", rate.name(), "", "")),
        _ => None,
    };
    proof {
        if r is Some {
            assert(r->Some_0@ =~= pad_called(mode, addr)->Some_0);
        }
    }
    r
}

/// What to call `button` on `mode`, or `None` where it does nothing.
///
/// Read from the same table a press is, so a name cannot promise what a press will not do.
pub fn name(mode: Mode, button: Button) -> (r: Option<String>)
    ensures
        said(r) == called(mode, button),
{
    let (first, second) = exits(mode);
    if first == Some(button) || second == Some(button) {
        let mut text: String = String::from_str("leave ");
        text.append(title(mode));
        return Some(text);
    }
    if let Button::Grid(addr) = button {
        return pad_name(mode, addr);
    }
    match role(mode, button) {
        Role::Transport => Some(String::from_str("play / pause")),
        Role::NewSession => Some(String::from_str("new session")),
        Role::Tempo(direction) => if direction > 0 {
            Some(String::from_str("tempo up"))
        } else {
            Some(String::from_str("tempo down"))
        },
        Role::Click => Some(String::from_str("click on or off")),
        Role::StopAll => Some(String::from_str("stop all")),
        Role::Rewind => Some(String::from_str("rewind")),
        Role::Axis => Some(String::from_str("group by row or column")),
        Role::Open(opens) => {
            let mut text: String = String::from_str("open ");
            text.append(title(opens));
            Some(text)
        },
        _ => None,
    }
}

/// Every screen but the loops can be left, and no way out is a button that does nothing.
pub proof fn every_screen_can_be_left(mode: Mode, button: Button)
    ensures
        ways_out(mode).0 is None <==> mode is Perform,
        is_way_out(mode, button) ==> !(role_of(mode, button) is Inert),
{
}

/// The transport answers on every screen, and has no other button.
pub proof fn transport_is_everywhere(mode: Mode, button: Button)
    ensures
        role_of(mode, button) is Transport <==> button == Button::Side(PAUSE_SIDE),
{
}

/// One screen cannot be reached from another: from any but the loops, a button opens only the
/// screen that is showing, or the picker a question was asked from, and is the way out of it.
pub proof fn screens_open_from_the_loops(mode: Mode, button: Button)
    requires
        role_of(mode, button) is Open,
        !(mode is Perform),
    ensures
        is_way_out(mode, button),
        role_of(mode, button)->Open_0 == mode || mode is ConfirmSave || mode is ConfirmLoad,
{
}

/// A button is named exactly where a press on it does something, but for the pads of a screen
/// that stand for nothing on it.
pub proof fn names_keep_their_promise(mode: Mode, button: Button)
    ensures
        role_of(mode, button) is Inert ==> called(mode, button) is None,
        !(button is Grid) && !(role_of(mode, button) is Inert) ==> called(mode, button) is Some,
{
}

} // verus!
