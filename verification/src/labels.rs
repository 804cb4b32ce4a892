//! What each button does, for an on-screen surface to name.

use vstd::prelude::*;
use vstd::string::*;

use crate::ids::{SlotAddr, PAD_COUNT};
use crate::surface::{
    Control, CONTROL_COUNT, INPUT_SIDE, MUTE_SIDE, NEW_SIDE, PAUSE_SIDE, SETTINGS_SIDE,
    SIDE_COUNT, SOLO_SIDE, VOLUME_SIDE,
};
use crate::text::{decimal, digits};

verus! {

/// Where an on-screen surface shows a button, counted from its top left corner.
#[derive(Debug, Clone, Copy, PartialEq, Eq, Structural)]
pub struct Spot {
    /// The column.
    pub x: u8,
    /// The row.
    pub y: u8,
}

/// Where the grid pad of a track and slot is shown, below the row of controls.
pub fn grid_pad(addr: SlotAddr) -> (r: Spot)
    ensures
        r.x == addr.slot.num(),
        r.y == addr.track.num() + 1,
{
    Spot { x: addr.slot.index() as u8, y: addr.track.index() as u8 + 1 }
}

/// Where the right-hand button at `index` is shown.
pub fn side_pad(index: usize) -> (r: Spot)
    requires
        index < SIDE_COUNT,
    ensures
        r.x == 8,
        r.y == index + 1,
{
    Spot { x: 8, y: index as u8 + 1 }
}

/// Where the top-row button at `index` is shown.
pub fn control_pad(index: usize) -> (r: Spot)
    requires
        index < CONTROL_COUNT,
    ensures
        r.x == index,
        r.y == 0,
{
    Spot { x: index as u8, y: 0 }
}

/// What the right-hand button at a place is called.
pub open spec fn side_called(index: int) -> Seq<char> {
    if index == VOLUME_SIDE {
        "volume"@
    } else if index == INPUT_SIDE {
        "input"@
    } else if index == SETTINGS_SIDE {
        "settings"@
    } else if index == PAUSE_SIDE {
        "play / pause"@
    } else if index == MUTE_SIDE {
        "mute"@
    } else if index == SOLO_SIDE {
        "solo"@
    } else if index == NEW_SIDE {
        "new session"@
    } else {
        "unused"@
    }
}

/// What the right-hand button at `index` opens.
pub fn side_name(index: usize) -> (r: &'static str)
    ensures
        r@ == side_called(index as int),
{
    if index == VOLUME_SIDE {
        "volume"
    } else if index == INPUT_SIDE {
        "input"
    } else if index == SETTINGS_SIDE {
        "settings"
    } else if index == PAUSE_SIDE {
        "play / pause"
    } else if index == MUTE_SIDE {
        "mute"
    } else if index == SOLO_SIDE {
        "solo"
    } else if index == NEW_SIDE {
        "new session"
    } else {
        "unused"
    }
}

/// What a top-row button is called.
pub open spec fn control_called(control: Control) -> Seq<char> {
    match control {
        Control::TempoUp => "tempo up"@,
        Control::TempoDown => "tempo down"@,
        Control::Rewind => "rewind"@,
        Control::Axis => "mute and solo by row or column"@,
        Control::LoadSession => "load session"@,
        Control::ClickToggle => "click"@,
        Control::StopAll => "stop all"@,
        Control::SaveSession => "save session"@,
    }
}

/// What the top-row `control` does.
pub fn control_name(control: Control) -> (r: &'static str)
    ensures
        r@ == control_called(control),
{
    match control {
        Control::TempoUp => "tempo up",
        Control::TempoDown => "tempo down",
        Control::Rewind => "rewind",
        Control::Axis => "mute and solo by row or column",
        Control::LoadSession => "load session",
        Control::ClickToggle => "click",
        Control::StopAll => "stop all",
        Control::SaveSession => "save session",
    }
}

/// Where a button is shown and what it is called there.
pub open spec fn labelled(label: (Spot, String)) -> (Spot, Seq<char>) {
    (label.0, label.1@)
}

/// What the grid pad at a place is called.
pub open spec fn pad_label(place: int) -> (Spot, Seq<char>) {
    (
        Spot { x: (place % 8) as u8, y: (place / 8 + 1) as u8 },
        "track "@ + digits(place / 8) + " slot "@ + digits(place % 8),
    )
}

/// Every button named by the job it always has: the top row, the right-hand column, then the
/// grid track by track.
pub fn fixed() -> (r: Vec<(Spot, String)>)
    ensures
        r@.len() == 80,
        forall|control: Control|
            labelled(r@[#[trigger] control.place()]) == (
                Spot { x: control.place() as u8, y: 0 },
                control_called(control),
            ),
        forall|i: int|
            8 <= i < 16 ==> labelled(#[trigger] r@[i]) == (
                Spot { x: 8, y: (i - 7) as u8 },
                side_called(i - 8),
            ),
        forall|i: int| 16 <= i < 80 ==> labelled(#[trigger] r@[i]) == pad_label(i - 16),
{
    let mut labels: Vec<(Spot, String)> = Vec::new();
    let controls: [Control; 8] = Control::all();
    while labels.len() < CONTROL_COUNT
        invariant
            labels@.len() <= 8,
            forall|i: int| 0 <= i < 8 ==> (#[trigger] controls@[i]).place() == i,
            forall|control: Control|
                #[trigger] control.place() < labels@.len() ==> labelled(labels@[control.place()])
                    == (Spot { x: control.place() as u8, y: 0 }, control_called(control)),
        decreases 8 - labels@.len(),
    {
        let index: usize = labels.len();
        let control: Control = controls[index];
        assert(control.place() == index);
        labels.push((control_pad(index), String::from_str(control_name(control))));
    }
    let mut index: usize = 0;
    while index < SIDE_COUNT
        invariant
            index <= 8,
            labels@.len() == 8 + index,
            forall|control: Control|
                labelled(labels@[#[trigger] control.place()]) == (
                    Spot { x: control.place() as u8, y: 0 },
                    control_called(control),
                ),
            forall|i: int|
                8 <= i < labels@.len() ==> labelled(#[trigger] labels@[i]) == (
                    Spot { x: 8, y: (i - 7) as u8 },
                    side_called(i - 8),
                ),
        decreases 8 - index,
    {
        labels.push((side_pad(index), String::from_str(side_name(index))));
        index += 1;
    }
    let mut place: usize = 0;
    while place < PAD_COUNT
        invariant
            place <= 64,
            labels@.len() == 16 + place,
            forall|control: Control|
                labelled(labels@[#[trigger] control.place()]) == (
                    Spot { x: control.place() as u8, y: 0 },
                    control_called(control),
                ),
            forall|i: int|
                8 <= i < 16 ==> labelled(#[trigger] labels@[i]) == (
                    Spot { x: 8, y: (i - 7) as u8 },
                    side_called(i - 8),
                ),
            forall|i: int|
                16 <= i < labels@.len() ==> labelled(#[trigger] labels@[i]) == pad_label(i - 16),
        decreases 64 - place,
    {
        let addr: SlotAddr = SlotAddr::of_index(place);
        let mut text: String = String::from_str("track ");
        text.append(decimal(addr.track.index() as u64).as_str());
        text.append(" slot ");
        text.append(decimal(addr.slot.index() as u64).as_str());
        labels.push((grid_pad(addr), text));
        place += 1;
    }
    labels
}

} // verus!
