//! The buttons and lights of the control surface.

use vstd::prelude::*;

use crate::ids::SlotAddr;

verus! {

/// Buttons in the right-hand column.
pub const SIDE_COUNT: usize = 8;

/// Buttons in the top row.
pub const CONTROL_COUNT: usize = 8;

/// Shades a light that shows a degree can take, off among them.
pub const SHADES: u8 = 4;

/// The top button that shows the beat, which is also [`Control::TempoUp`].
pub const FIRST_BEAT_LED: usize = 0;

/// The side button that opens the volume screen.
pub const VOLUME_SIDE: usize = 0;

/// The side button that opens the pan screen.
pub const PAN_SIDE: usize = 1;

/// The side button that opens the input screen.
pub const INPUT_SIDE: usize = 2;

/// The side button that opens the settings screen.
pub const SETTINGS_SIDE: usize = 3;

/// The side button that freezes and resumes the transport.
pub const PAUSE_SIDE: usize = 4;

/// The side button that opens the mute screen.
pub const MUTE_SIDE: usize = 5;

/// The side button that opens the solo screen.
pub const SOLO_SIDE: usize = 6;

/// The side button that starts a new session.
pub const NEW_SIDE: usize = 7;

/// A button in the top row.
#[derive(Debug, Clone, Copy, PartialEq, Eq, Structural)]
pub enum Control {
    TempoUp,
    TempoDown,
    Rewind,
    Axis,
    LoadSession,
    ClickToggle,
    StopAll,
    SaveSession,
}

impl Control {
    /// Its place in the top row.
    pub open spec fn place(self) -> int {
        match self {
            Control::TempoUp => 0,
            Control::TempoDown => 1,
            Control::Rewind => 2,
            Control::Axis => 3,
            Control::LoadSession => 4,
            Control::ClickToggle => 5,
            Control::StopAll => 6,
            Control::SaveSession => 7,
        }
    }

    /// Its place in the top row.
    pub fn index(self) -> (r: usize)
        ensures
            r == self.place(),
            r < CONTROL_COUNT,
    {
        match self {
            Control::TempoUp => 0,
            Control::TempoDown => 1,
            Control::Rewind => 2,
            Control::Axis => 3,
            Control::LoadSession => 4,
            Control::ClickToggle => 5,
            Control::StopAll => 6,
            Control::SaveSession => 7,
        }
    }

    /// Every button in the top row, in order.
    pub fn all() -> (r: [Control; 8])
        ensures
            forall|i: int| 0 <= i < 8 ==> (#[trigger] r@[i]).place() == i,
    {
        [
            Control::TempoUp,
            Control::TempoDown,
            Control::Rewind,
            Control::Axis,
            Control::LoadSession,
            Control::ClickToggle,
            Control::StopAll,
            Control::SaveSession,
        ]
    }
}

/// Something the performer did.
#[derive(Debug, Clone, Copy, PartialEq, Eq, Structural)]
pub enum SurfaceEvent {
    /// A grid pad went down.
    PadPressed {
        addr: SlotAddr,
        velocity: u8,
    },
    /// A grid pad came up.
    PadReleased {
        addr: SlotAddr,
    },
    /// A button in the top row went down.
    ControlPressed(Control),
    /// A button in the top row came up.
    ControlReleased(Control),
    /// A button in the right-hand column went down.
    SidePressed {
        index: u8,
    },
    /// A button in the right-hand column came up.
    SideReleased {
        index: u8,
    },
}

/// A colour a light can take.
#[derive(Debug, Clone, Copy, PartialEq, Eq, Structural)]
pub enum LedColor {
    White,
    Red,
    Amber,
    Yellow,
    Green,
    Blue,
    Purple,
}

/// How a light is lit.
#[derive(Debug, Clone, Copy, PartialEq, Eq, Structural)]
pub enum LedStyle {
    Off,
    Dim,
    Solid,
    Pulse,
    Flash,
}

/// One light.
#[derive(Debug, Clone, Copy, PartialEq, Eq, Structural)]
pub struct Led {
    pub color: LedColor,
    pub style: LedStyle,
}

impl Led {
    /// Not lit.
    pub fn off() -> (r: Self)
        ensures
            r == (Led { color: LedColor::White, style: LedStyle::Off }),
    {
        Led { color: LedColor::White, style: LedStyle::Off }
    }

    /// Lit steadily.
    pub fn solid(color: LedColor) -> (r: Self)
        ensures
            r == (Led { color, style: LedStyle::Solid }),
    {
        Led { color, style: LedStyle::Solid }
    }

    /// Lit faintly.
    pub fn dim(color: LedColor) -> (r: Self)
        ensures
            r == (Led { color, style: LedStyle::Dim }),
    {
        Led { color, style: LedStyle::Dim }
    }

    /// Swelling with the beat.
    pub fn pulse(color: LedColor) -> (r: Self)
        ensures
            r == (Led { color, style: LedStyle::Pulse }),
    {
        Led { color, style: LedStyle::Pulse }
    }

    /// Blinking.
    pub fn flash(color: LedColor) -> (r: Self)
        ensures
            r == (Led { color, style: LedStyle::Flash }),
    {
        Led { color, style: LedStyle::Flash }
    }

    /// Whether it is lit at all.
    pub fn is_lit(self) -> (r: bool)
        ensures
            r == !(self.style is Off),
    {
        !matches!(self.style, LedStyle::Off)
    }
}

/// Every light of the surface.
#[derive(Debug, Clone, Copy, PartialEq, Eq)]
pub struct LedFrame {
    pads: [Led; 64],
    controls: [Led; 8],
    sides: [Led; 8],
}

/// The lights of a frame, the pads track by track.
#[verifier::ext_equal]
pub struct FrameView {
    pub pads: Seq<Led>,
    pub controls: Seq<Led>,
    pub sides: Seq<Led>,
}

impl FrameView {
    /// There is one light for every button.
    pub open spec fn wf(self) -> bool {
        self.pads.len() == 64 && self.controls.len() == 8 && self.sides.len() == 8
    }
}

impl LedFrame {
    /// The lights of the frame.
    pub closed spec fn view(&self) -> FrameView {
        FrameView { pads: self.pads@, controls: self.controls@, sides: self.sides@ }
    }

    /// A frame with nothing lit.
    pub fn dark() -> (r: Self)
        ensures
            r@.wf(),
            forall|i: int| 0 <= i < 64 ==> (#[trigger] r@.pads[i]).style is Off,
            forall|i: int| 0 <= i < 8 ==> (#[trigger] r@.controls[i]).style is Off,
            forall|i: int| 0 <= i < 8 ==> (#[trigger] r@.sides[i]).style is Off,
    {
        let off: Led = Led::off();
        LedFrame { pads: [off; 64], controls: [off; 8], sides: [off; 8] }
    }

    /// The light of a pad.
    pub fn pad(&self, addr: SlotAddr) -> (r: Led)
        ensures
            r == self@.pads[addr.place()],
    {
        self.pads[addr.index()]
    }

    /// The light of a button in the top row.
    pub fn control(&self, index: usize) -> (r: Led)
        requires
            index < CONTROL_COUNT,
        ensures
            r == self@.controls[index as int],
    {
        self.controls[index]
    }

    /// The light of a button in the right-hand column.
    pub fn side(&self, index: usize) -> (r: Led)
        requires
            index < SIDE_COUNT,
        ensures
            r == self@.sides[index as int],
    {
        self.sides[index]
    }

    /// Sets the light of a pad.
    pub fn set_pad(&mut self, addr: SlotAddr, led: Led)
        ensures
            final(self)@ == (FrameView {
                pads: old(self)@.pads.update(addr.place(), led),
                ..old(self)@
            }),
            old(self)@.wf(),
            final(self)@.wf(),
    {
        self.pads[addr.index()] = led;
    }

    /// Sets the light of a button in the top row.
    pub fn set_control(&mut self, index: usize, led: Led)
        requires
            index < CONTROL_COUNT,
        ensures
            final(self)@ == (FrameView {
                controls: old(self)@.controls.update(index as int, led),
                ..old(self)@
            }),
            old(self)@.wf(),
            final(self)@.wf(),
    {
        self.controls[index] = led;
    }

    /// Sets the light of a button in the right-hand column.
    pub fn set_side(&mut self, index: usize, led: Led)
        requires
            index < SIDE_COUNT,
        ensures
            final(self)@ == (FrameView {
                sides: old(self)@.sides.update(index as int, led),
                ..old(self)@
            }),
            old(self)@.wf(),
            final(self)@.wf(),
    {
        self.sides[index] = led;
    }
}

} // verus!
