//! The control loop's state.
//!
//! Sits between the surface and the engine: gestures in, commands out, reports in, a
//! frame out. Owns no I/O and takes the time as an argument rather than reading a clock.
//!
//! The session model here is a mirror of the engine's, kept to paint the grid.

use vstd::prelude::*;
use vstd::string::*;

use crate::command::Command;
use crate::device::{Nanos, LONGEST};
use crate::double::{nearest_even, nearest_up, round_to_double, rounding_is_close, to_double};
use crate::event::Event;
use crate::gain::UNITY_STEP;
use crate::grid::{Subdivision, MINUTE};
use crate::ids::{
    column_mask, column_set, holds, holds_place, none_held, or_bit, pad_bit,
    places_are_addresses, row_mask, row_set, LaunchMode, PadMask, Polyphony, SlotAddr,
    TrackInput, PAD_COUNT,
};
use crate::paint::{
    answer_led, answer_light, control_led, control_light, gauge_led, gauge_light, hushed,
    input_led, input_light, level_led, level_light, loop_led, loop_light, pan_led, pan_light,
    picker_color, rate_led, rate_light, session_led, session_light, setting_led, setting_light,
    side_button_led, side_button_light, signature_led, signature_light,
};
use crate::pan::{CENTRE_STEP, PAN_STEPS};
use crate::screen::{
    exits, role, role_of, said, ways_out, Button, Mode, Role, PICKUP_COLUMN, POLYPHONY_COLUMN,
    RESTART_COLUMN,
};
use crate::session::SessionModel;
use crate::settings::Settings;
use crate::slot::SlotState;
use crate::surface::{
    Control, FrameView, Led, LedColor, LedFrame, LedStyle, SurfaceEvent, CONTROL_COUNT,
    FIRST_BEAT_LED, SHADES, SIDE_COUNT,
};
use crate::text::{decimal, digits};
use crate::time::{
    common_units_are_powers, power_of_two, Tempo, TimeSignature, BPM_UNIT, MAX_UNITS, MIN_UNITS,
};

verus! {

/// Beats per minute one press of the tempo buttons moves.
pub const TEMPO_STEP: i32 = 1;

/// Beats per minute a tempo button moves once it starts repeating.
pub const TEMPO_HOLD_STEP: i32 = 5;

/// How long a pad must be held to empty it.
pub const CLEAR_HOLD: Nanos = 1_000_000_000;

/// How long into a hold the pad starts warning that it is about to empty.
pub const CLEAR_WARNING: Nanos = 400_000_000;

/// How long the click button must be held to open its own page.
pub const CLICK_HOLD: Nanos = 400_000_000;

/// How long a tempo button must be held before it starts repeating.
pub const TEMPO_HOLD_DELAY: Nanos = 400_000_000;

/// How often a held tempo button repeats.
pub const TEMPO_HOLD_INTERVAL: Nanos = 120_000_000;

/// How long the grid holds the colour that answers a save or a load.
pub const RESULT_FLASH: Nanos = 500_000_000;

/// How long the bpm stays up before the grid comes back.
///
/// The device says nothing when its scroll finishes, so the time is waited out.
pub const TEXT_DURATION: Nanos = 1_400_000_000;

/// The colour of whatever is waiting on the next press.
pub open spec fn selected() -> LedColor {
    LedColor::Yellow
}

/// Whether mute and solo group by row or column.
#[derive(Debug, Clone, Copy, PartialEq, Eq, Structural)]
pub enum Axis {
    Row,
    Column,
}

impl Axis {
    /// The other one.
    pub fn flipped(self) -> (r: Self)
        ensures
            r == (if self is Row {
                Axis::Column
            } else {
                Axis::Row
            }),
    {
        match self {
            Axis::Row => Axis::Column,
            Axis::Column => Axis::Row,
        }
    }
}

/// Everything the grid shows besides the loops.
#[derive(Debug, Clone, Copy)]
pub struct Chrome {
    /// Which input each track records.
    pub inputs: [TrackInput; 8],
    /// Where each track's clips are anchored when launched.
    pub launch_modes: [LaunchMode; 8],
    /// Beats each track opens its loops from the tail for.
    pub pickups: [u8; 8],
    /// How many of each track's loops may sound at once.
    pub polyphony: [Polyphony; 8],
    /// Where each track sits across the stereo field.
    pub pans: [u8; 8],
    /// How loud each track plays.
    pub gains: [u8; 8],
    /// How many inputs the device offers.
    pub input_count: usize,
    /// The beat the transport is on.
    pub beat: u32,
    /// Whether the beat indicator is lit.
    pub beat_lit: bool,
    /// How often the click sounds.
    pub subdivision: Subdivision,
    /// The signature being shown.
    pub signature: TimeSignature,
    /// Whether the click sounds.
    pub click_enabled: bool,
    /// Whether the transport is frozen.
    pub paused: bool,
    /// Whether mute and solo group by row or column.
    pub axis: Axis,
    /// Pads that do not sound.
    pub muted: PadMask,
    /// Pads that sound to the exclusion of the rest.
    pub soloed: PadMask,
}

/// A tempo button being held down.
#[derive(Debug, Clone, Copy, PartialEq, Eq, Structural)]
pub struct TempoHold {
    /// The button being held, so it can show that it is.
    pub button: Control,
    /// Which way it moves, and how far.
    pub delta: i32,
    /// When it went down.
    pub since: Nanos,
    /// When it last moved.
    pub last: Nanos,
    /// The tempo before it was pressed.
    pub started_at: Tempo,
    /// The screen it went down on. A hold does not reach across to another.
    pub screen: Mode,
}

/// The click button being held down.
#[derive(Debug, Clone, Copy, PartialEq, Eq, Structural)]
pub struct ClickHold {
    /// When it went down.
    pub since: Nanos,
    /// Whether the hold has already done its work, so letting go does nothing more.
    pub used: bool,
    /// The screen it went down on.
    pub screen: Mode,
}

/// The grid lit one colour to answer something the performer asked for.
#[derive(Debug)]
struct Flash {
    color: LedColor,
    /// When the grid goes back to showing the loops.
    until: Nanos,
    /// Scrolled once the colour has been held.
    follow: Option<String>,
}

/// Something for the surface to display.
#[derive(Debug, Clone, PartialEq, Eq)]
pub enum TextUpdate {
    /// Show this.
    Show(String),
    /// Stop showing anything.
    Stop,
}

/// Work for the caller to do, which the controller cannot because it owns no I/O.
#[derive(Debug, Clone, Copy, PartialEq, Eq, Structural)]
pub enum Request {
    /// Write the session under this pad.
    SaveSession(SlotAddr),
    /// Read the session under this pad.
    LoadSession(SlotAddr),
}

/// One thing the performer asked for, in the order it was asked.
///
/// Commands and requests share a queue: a request can start a load, which the audio side
/// applies after the commands it has already taken, so their order has to survive.
#[derive(Debug, Clone, Copy, PartialEq, Eq)]
pub enum Work {
    /// For the engine.
    Command(Command),
    /// For the caller, which has the disk and the loader.
    Request(Request),
}

/// What a display change says.
pub enum TextView {
    /// Show this.
    Show(Seq<char>),
    /// Stop showing anything.
    Stop,
}

/// What a display change says, if there is one.
pub open spec fn text_view(text: Option<TextUpdate>) -> Option<TextView> {
    match text {
        Some(TextUpdate::Show(text)) => Some(TextView::Show(text@)),
        Some(TextUpdate::Stop) => Some(TextView::Stop),
        None => None,
    }
}

/// The grid lit one colour.
pub struct FlashView {
    pub color: LedColor,
    pub until: Nanos,
    pub follow: Option<Seq<char>>,
}

/// Which picture the grid shows, before anything is marked on it.
#[derive(Debug, Clone, Copy, PartialEq, Eq, Structural)]
pub enum Page {
    /// How loud each track plays.
    Volumes,
    /// Where each track sits across the stereo field.
    Pans,
    /// Which input each track records.
    Inputs,
    /// One row of settings per track.
    Settings,
    /// Beats to the bar and the note that gets the beat.
    TimeSignature,
    /// How often the click sounds.
    Subdivisions,
    /// Where a tempo that is still moving stands.
    TempoGauge,
    /// Yes or no.
    Confirm,
    /// The sessions, for the button that opened them.
    Picker(Control),
    /// The loops.
    Loops,
}

/// Turns gestures into commands and reports into a frame.
///
/// A pad's action lands on release rather than on press, because a press cannot be told
/// from the start of a hold.
pub struct Controller {
    session: SessionModel,
    chrome: Chrome,
    tempo: Tempo,
    /// What the config asked for, which a fresh session goes back to.
    default_tempo: Tempo,
    /// The musical time the loaded material is in.
    time_signature: TimeSignature,
    /// What the config asked for, which a fresh session goes back to.
    default_time_signature: TimeSignature,
    /// The last signature the engine confirmed, which a refusal falls back to.
    confirmed_signature: TimeSignature,
    /// When the click button went down, and whether the hold has already been used.
    click_hold: Option<ClickHold>,
    /// The input a fresh session puts every track on.
    default_input: TrackInput,
    /// The launch mode a fresh session puts every track on.
    default_launch_mode: LaunchMode,
    /// Tempo to fall back to if the engine turns a change down.
    tempo_before_request: Tempo,
    /// When each held pad went down.
    held: [Option<Nanos>; 64],
    /// Pads currently warning that they are about to empty.
    warning: PadMask,
    /// A pad held down on the input page, which the next press pairs with.
    input_held: Option<SlotAddr>,
    /// Commands and requests in the order the performer made them.
    work: Vec<Work>,
    /// A tempo button being held down.
    tempo_hold: Option<TempoHold>,
    /// When the beat indicator goes dark again.
    beat_off: Option<Nanos>,
    /// A display change the caller has not picked up yet.
    text: Option<TextUpdate>,
    /// When the grid comes back, while text has it.
    text_until: Option<Nanos>,
    /// Whether text is on the grid now, as opposed to merely queued.
    text_running: bool,
    /// The screen the frame on the surface was painted for.
    painted: Mode,
    /// A colour answering a save, over the whole grid until it expires.
    flash: Option<Flash>,
    mode: Mode,
    /// A bit per pad that holds a session.
    sessions: PadMask,
    /// The session in use, if one was loaded or saved this run.
    current: Option<SlotAddr>,
    dirty: bool,
}

/// What the controller holds, as mathematical values.
#[verifier::ext_equal]
pub struct ControllerView {
    /// What every pad is doing, as far as it was reported.
    pub session: Seq<SlotState>,
    /// Everything else the grid shows.
    pub chrome: Chrome,
    /// The tempo the engine is believed to be running at.
    pub tempo: Tempo,
    /// The tempo a fresh session goes back to.
    pub default_tempo: Tempo,
    /// The signature the material is believed to be in.
    pub time_signature: TimeSignature,
    /// The signature a fresh session goes back to.
    pub default_time_signature: TimeSignature,
    /// The last signature the engine confirmed.
    pub confirmed_signature: TimeSignature,
    /// The click button being held.
    pub click_hold: Option<ClickHold>,
    /// The input a fresh session puts every track on.
    pub default_input: TrackInput,
    /// The launch mode a fresh session puts every track on.
    pub default_launch_mode: LaunchMode,
    /// The tempo to fall back to.
    pub tempo_before_request: Tempo,
    /// When each held pad went down, track by track.
    pub held: Seq<Option<Nanos>>,
    /// Pads warning that they are about to empty.
    pub warning: PadMask,
    /// A pad held down on the input page.
    pub input_held: Option<SlotAddr>,
    /// Everything asked for and not taken yet, in order.
    pub work: Seq<Work>,
    /// A tempo button being held.
    pub tempo_hold: Option<TempoHold>,
    /// When the beat indicator goes dark.
    pub beat_off: Option<Nanos>,
    /// A display change not taken yet.
    pub text: Option<TextView>,
    /// When the grid comes back from text.
    pub text_until: Option<Nanos>,
    /// Whether text is on the grid.
    pub text_running: bool,
    /// The screen last painted.
    pub painted: Mode,
    /// A colour over the whole grid.
    pub flash: Option<FlashView>,
    /// The screen showing.
    pub mode: Mode,
    /// Pads that hold a session.
    pub sessions: PadMask,
    /// The session in use.
    pub current: Option<SlotAddr>,
    /// Whether anything changed since a frame was last taken.
    pub dirty: bool,
}

/// What a colour over the whole grid says.
spec fn flash_view(flash: Option<Flash>) -> Option<FlashView> {
    match flash {
        Some(flash) => Some(
            FlashView {
                color: flash.color,
                until: flash.until,
                follow: match flash.follow {
                    Some(text) => Some(text@),
                    None => None,
                },
            },
        ),
        None => None,
    }
}

impl View for Controller {
    type V = ControllerView;

    closed spec fn view(&self) -> ControllerView {
        ControllerView {
            session: self.session@,
            chrome: self.chrome,
            tempo: self.tempo,
            default_tempo: self.default_tempo,
            time_signature: self.time_signature,
            default_time_signature: self.default_time_signature,
            confirmed_signature: self.confirmed_signature,
            click_hold: self.click_hold,
            default_input: self.default_input,
            default_launch_mode: self.default_launch_mode,
            tempo_before_request: self.tempo_before_request,
            held: self.held@,
            warning: self.warning,
            input_held: self.input_held,
            work: self.work@,
            tempo_hold: self.tempo_hold,
            beat_off: self.beat_off,
            text: text_view(self.text),
            text_until: self.text_until,
            text_running: self.text_running,
            painted: self.painted,
            flash: flash_view(self.flash),
            mode: self.mode,
            sessions: self.sessions,
            current: self.current,
            dirty: self.dirty,
        }
    }
}

/// An array with one entry replaced.
pub open spec fn with_entry<T>(array: [T; 8], index: int, entry: T) -> [T; 8] {
    vstd::array::spec_array_update(array, index, entry)
}

/// The same entry eight times.
pub open spec fn every<T: Copy>(entry: T) -> [T; 8] {
    vstd::array::spec_array_fill_for_copy_type::<T, 8>(entry)
}

/// What every track should be set to.
pub open spec fn settings_of(chrome: Chrome) -> Settings {
    Settings {
        gains: chrome.gains,
        muted: chrome.muted,
        soloed: chrome.soloed,
        inputs: chrome.inputs,
        launch_modes: chrome.launch_modes,
        pickups: chrome.pickups,
        polyphony: chrome.polyphony,
        pans: chrome.pans,
        loop_gains: every(every(UNITY_STEP)),
        loop_pans: every(every(CENTRE_STEP)),
        passthrough: every(false),
    }
}

/// The degrees a pickup has in a signature: a beat each but for the last, as far as a light has
/// shades to show it.
pub open spec fn pickup_degrees(signature: TimeSignature) -> int {
    if signature.beats() - 1 < SHADES - 1 {
        signature.beats() - 1
    } else {
        SHADES - 1
    }
}

/// The first so many pickups held to a degree.
pub open spec fn pulled_in(pickups: [u8; 8], most: int, to: int) -> [u8; 8]
    decreases to,
{
    if to <= 0 {
        pickups
    } else {
        with_entry(
            pulled_in(pickups, most, to - 1),
            to - 1,
            if pickups[to - 1] > most {
                most as u8
            } else {
                pickups[to - 1]
            },
        )
    }
}

/// Whether any of the first so many pickups is past a degree.
pub open spec fn any_past(pickups: [u8; 8], most: int, to: int) -> bool {
    exists|track: int| 0 <= track < to && #[trigger] pickups[track] > most
}

/// How long the beat indicator stays lit: half a beat, as double precision arithmetic gives it,
/// to the nearest nanosecond. The tempo counts quarter notes, so a beat is `4 / beat_unit` of
/// one.
pub open spec fn lit_nanos(tempo: Tempo, signature: TimeSignature) -> int {
    nearest_even(
        to_double(2 * MINUTE, tempo.units()) * 1_000_000_000,
        signature.unit() * 0x1000_0000_0000_0000,
    )
}

/// How far past a moment another one is, or nothing.
pub open spec fn passed(now: Nanos, since: Nanos) -> int {
    if now >= since {
        now - since
    } else {
        0
    }
}

/// Whether a piece of work changes the tempo.
pub open spec fn sets_tempo(work: Work) -> bool {
    work matches Work::Command(Command::SetTempo(_))
}

/// How the controller moves.
impl ControllerView {
    /// Whether any pad holds a clip.
    pub open spec fn has_clip(self) -> bool {
        exists|place: int| 0 <= place < 64 && (#[trigger] self.session[place]).held() is Some
    }

    /// There is an entry for every pad.
    pub open spec fn wf(self) -> bool {
        self.session.len() == 64 && self.held.len() == 64
    }

    /// Something for the engine, asked for last.
    pub open spec fn commands(self, command: Command) -> Self {
        ControllerView { work: self.work.push(Work::Command(command)), ..self }
    }

    /// Something for the caller, asked for last.
    pub open spec fn requests(self, request: Request) -> Self {
        ControllerView { work: self.work.push(Work::Request(request)), ..self }
    }

    /// The settings, in their place among everything else asked for. Adjacent changes coalesce
    /// into the later one, which cannot cross anything else.
    pub open spec fn marks_settings(self) -> Self {
        let settings = Work::Command(Command::SetSettings(settings_of(self.chrome)));
        ControllerView {
            work: if self.work.len() > 0 && (self.work.last() matches Work::Command(
                Command::SetSettings(_),
            )) {
                self.work.update(self.work.len() - 1, settings)
            } else {
                self.work.push(settings)
            },
            ..self
        }
    }

    /// Something changed on the grid.
    pub open spec fn touched(self) -> Self {
        ControllerView { dirty: true, ..self }
    }

    /// Text goes on the grid.
    pub open spec fn scrolls(self, text: Seq<char>, now: Nanos) -> Self {
        ControllerView {
            text: Some(TextView::Show(text)),
            text_until: Some((now + TEXT_DURATION) as Nanos),
            dirty: true,
            ..self
        }
    }

    /// The grid is held at one colour, and something is scrolled after it. Text already on the
    /// grid is stopped first.
    pub open spec fn shows(self, color: LedColor, now: Nanos, follow: Option<Seq<char>>) -> Self {
        let stopping = self.text_running || self.text_until is Some;
        ControllerView {
            text: if stopping {
                Some(TextView::Stop)
            } else {
                self.text
            },
            text_until: None,
            flash: Some(FlashView { color, until: (now + RESULT_FLASH) as Nanos, follow }),
            dirty: true,
            ..self
        }
    }

    /// Another screen.
    pub open spec fn turns_to(self, mode: Mode) -> Self {
        ControllerView { mode, dirty: true, ..self }
    }

    /// Another picture of the settings.
    pub open spec fn with_chrome(self, chrome: Chrome) -> Self {
        ControllerView { chrome, ..self }
    }

    /// Settings taken as a whole, told to the engine and shown.
    pub open spec fn resets(self, chrome: Chrome) -> Self {
        self.with_chrome(chrome).marks_settings().touched()
    }

    /// A track's level, taken from the column pressed.
    pub open spec fn sets_level(self, addr: SlotAddr) -> Self {
        self.resets(
            Chrome {
                gains: with_entry(self.chrome.gains, addr.track.num(), addr.slot.num() as u8),
                ..self.chrome
            },
        )
    }

    /// A track moved across the stereo field. Pads past the row do nothing.
    pub open spec fn sets_pan(self, addr: SlotAddr) -> Self {
        if addr.slot.num() >= PAN_STEPS {
            self
        } else {
            self.resets(
                Chrome {
                    pans: with_entry(self.chrome.pans, addr.track.num(), addr.slot.num() as u8),
                    ..self.chrome
                },
            )
        }
    }

    /// Which channels a track records: one, or with another pad of the row still down the pair.
    pub open spec fn presses_input(self, addr: SlotAddr) -> Self {
        let channel = addr.slot.num() as u8;
        if addr.slot.num() >= self.chrome.input_count {
            self
        } else {
            match self.input_held {
                Some(held) if held.track == addr.track && held.slot != addr.slot => {
                    let first = held.slot.num() as u8;
                    let pair = if first <= channel {
                        TrackInput::Pair(first, channel)
                    } else {
                        TrackInput::Pair(channel, first)
                    };
                    self.resets(
                        Chrome {
                            inputs: with_entry(self.chrome.inputs, addr.track.num(), pair),
                            ..self.chrome
                        },
                    )
                },
                _ => (ControllerView { input_held: Some(addr), ..self }).resets(
                    Chrome {
                        inputs: with_entry(
                            self.chrome.inputs,
                            addr.track.num(),
                            TrackInput::Mono(channel),
                        ),
                        ..self.chrome
                    },
                ),
            }
        }
    }

    /// The setting a pad's column stands for, flipped or taken a degree further.
    pub open spec fn toggles_setting(self, addr: SlotAddr) -> Self {
        let track = addr.track.num();
        if addr.slot.num() == RESTART_COLUMN {
            self.resets(
                Chrome {
                    launch_modes: with_entry(
                        self.chrome.launch_modes,
                        track,
                        if self.chrome.launch_modes[track] is Follow {
                            LaunchMode::Restart
                        } else {
                            LaunchMode::Follow
                        },
                    ),
                    ..self.chrome
                },
            )
        } else if addr.slot.num() == PICKUP_COLUMN {
            let next = self.chrome.pickups[track] + 1;
            self.resets(
                Chrome {
                    pickups: with_entry(
                        self.chrome.pickups,
                        track,
                        if next > pickup_degrees(self.chrome.signature) {
                            0
                        } else {
                            next as u8
                        },
                    ),
                    ..self.chrome
                },
            )
        } else if addr.slot.num() == POLYPHONY_COLUMN {
            self.resets(
                Chrome {
                    polyphony: with_entry(
                        self.chrome.polyphony,
                        track,
                        if self.chrome.polyphony[track] is Single {
                            Polyphony::Multiple
                        } else {
                            Polyphony::Single
                        },
                    ),
                    ..self.chrome
                },
            )
        } else {
            self
        }
    }

    /// The row or column a pad sits in, silenced or freed. The pad pressed decides, so a
    /// part-set group turns fully on rather than toggling each pad separately.
    pub open spec fn toggles_group(self, addr: SlotAddr) -> Self {
        let group = if self.chrome.axis is Row {
            row_set(addr.track)
        } else {
            column_set(addr.slot)
        };
        let marks = if self.mode is Solo {
            self.chrome.soloed
        } else {
            self.chrome.muted
        };
        let next = if holds(marks, addr) {
            marks & !group
        } else {
            marks | group
        };
        self.resets(
            if self.mode is Solo {
                Chrome { soloed: next, ..self.chrome }
            } else {
                Chrome { muted: next, ..self.chrome }
            },
        )
    }

    /// A signature shown without touching anything that depends on it.
    pub open spec fn shows_signature(self, signature: TimeSignature) -> Self {
        ControllerView {
            time_signature: signature,
            chrome: Chrome { signature, ..self.chrome },
            dirty: true,
            ..self
        }
    }

    /// A click rate the bar cannot be cut into falls back to one click a beat.
    pub open spec fn fits_rate(self, signature: TimeSignature) -> Self {
        let fallback = fitting_rate(signature);
        if self.chrome.subdivision.divides(signature) {
            self
        } else {
            self.with_chrome(Chrome { subdivision: fallback, ..self.chrome }).commands(
                Command::SetClickSubdivision(fallback),
            )
        }
    }

    /// A pickup cannot reach past the bar it opens from.
    pub open spec fn pulls_pickups(self, most: int) -> Self {
        let pulled = self.with_chrome(
            Chrome { pickups: pulled_in(self.chrome.pickups, most, 8), ..self.chrome },
        );
        if any_past(self.chrome.pickups, most, 8) {
            pulled.marks_settings()
        } else {
            pulled
        }
    }

    /// A signature the engine is known to be running, and everything that follows.
    pub open spec fn adopts_signature(self, signature: TimeSignature) -> Self {
        (ControllerView {
            confirmed_signature: signature,
            ..self.shows_signature(signature)
        }).fits_rate(signature).pulls_pickups(pickup_degrees(signature))
    }

    /// Everything emptied, on a session with no name. The tempo and signature follow the clear,
    /// so the engine is no longer holding clips to protect and takes them.
    pub open spec fn starts_fresh(self) -> Self {
        let chrome = Chrome {
            muted: 0,
            soloed: 0,
            paused: false,
            gains: every(UNITY_STEP),
            inputs: every(self.default_input),
            launch_modes: every(self.default_launch_mode),
            pickups: every(0),
            polyphony: every(Polyphony::Single),
            pans: every(CENTRE_STEP),
            ..self.chrome
        };
        let emptied = ControllerView {
            session: Seq::new(64, |i: int| SlotState::Empty),
            chrome,
            current: None,
            mode: Mode::Perform,
            ..self
        };
        let cleared = emptied.marks_settings().commands(Command::ClearAll).commands(
            Command::SetPaused(false),
        );
        (ControllerView {
            tempo: self.default_tempo,
            tempo_before_request: self.default_tempo,
            ..cleared
        }).commands(Command::SetTempo(self.default_tempo)).adopts_signature(
            self.default_time_signature,
        ).commands(Command::SetTimeSignature(self.default_time_signature)).touched()
    }

    /// Saving over a pad, asking first if it holds anything.
    pub open spec fn presses_save(self, addr: SlotAddr) -> Self {
        if holds(self.sessions, addr) {
            self.turns_to(Mode::ConfirmSave(addr))
        } else {
            self.requests(Request::SaveSession(addr))
        }
    }

    /// Loading a pad that holds something, asking first if the grid does.
    pub open spec fn presses_load(self, addr: SlotAddr) -> Self {
        if !holds(self.sessions, addr) {
            self
        } else if self.has_clip() {
            self.turns_to(Mode::ConfirmLoad(addr))
        } else {
            self.requests(Request::LoadSession(addr))
        }
    }

    /// Yes or no to the question the grid is asking. Any other pad is ignored.
    pub open spec fn answers(self, addr: SlotAddr) -> Self {
        if addr.track.num() == 0 && addr.slot.num() == 7 {
            self.turns_to(Mode::Perform)
        } else if addr.track.num() == 0 && addr.slot.num() == 0 {
            match self.mode {
                Mode::ConfirmSave(pad) => self.requests(Request::SaveSession(pad)).turns_to(
                    Mode::Perform,
                ),
                Mode::ConfirmLoad(pad) => self.requests(Request::LoadSession(pad)).turns_to(
                    Mode::Perform,
                ),
                _ => self,
            }
        } else {
            self
        }
    }

    /// A screen opened, or closed if it was already open.
    pub open spec fn sets_mode(self, wanted: Mode) -> Self {
        (ControllerView { input_held: None, ..self }).turns_to(
            if self.mode == wanted {
                Mode::Perform
            } else {
                wanted
            },
        )
    }

    /// How often the click sounds. A rate the bar cannot be cut into does nothing.
    pub open spec fn presses_rate(self, rate: Subdivision, now: Nanos) -> Self {
        if !rate.divides(self.chrome.signature) {
            self
        } else {
            let changed = if rate != self.chrome.subdivision {
                self.with_chrome(Chrome { subdivision: rate, ..self.chrome }).commands(
                    Command::SetClickSubdivision(rate),
                ).touched()
            } else {
                self
            };
            changed.scrolls(rate.called(), now)
        }
    }

    /// One number of the signature, heard at once. Locked while clips exist, the same as the
    /// tempo, so it only reports. Nothing that depends on it moves until the engine says it
    /// took the change.
    pub open spec fn presses_signature(self, next: TimeSignature, now: Nanos) -> Self {
        let current = self.time_signature;
        if self.has_clip() {
            self.scrolls(signature_text(current), now)
        } else if next != current {
            self.shows_signature(next).commands(Command::SetTimeSignature(next)).scrolls(
                signature_text(next),
                now,
            )
        } else {
            self.scrolls(signature_text(next), now)
        }
    }

    /// The transport frozen or resumed.
    pub open spec fn toggles_paused(self) -> Self {
        let paused = !self.chrome.paused;
        self.with_chrome(Chrome { paused, ..self.chrome }).commands(
            Command::SetPaused(paused),
        ).touched()
    }

    /// The tempo put on the grid for long enough to read.
    pub open spec fn shows_tempo(self, now: Nanos) -> Self {
        self.scrolls(tempo_text(self.tempo), now)
    }

    /// The tempo moved, unless it is against the end of its range already. Assumed to land; the
    /// engine only speaks up when it does not.
    pub open spec fn nudges_tempo(self, delta: int) -> Self {
        let wanted = self.tempo.moved(delta);
        if wanted == self.tempo {
            self
        } else {
            (ControllerView {
                tempo_before_request: self.tempo,
                tempo: wanted,
                ..self
            }).commands(Command::SetTempo(wanted))
        }
    }

    /// The tempo put back, in the engine as well as on the display. Any nudge still queued is
    /// dropped: one authoritative value goes out instead.
    pub open spec fn undoes_nudge(self, was: Tempo) -> Self {
        (ControllerView {
            work: self.work.filter(|work: Work| !sets_tempo(work)),
            tempo: was,
            tempo_before_request: was,
            ..self
        }).commands(Command::SetTempo(was)).touched()
    }

    /// A tempo button going down. Both at once asks for the signature, so the first nudge is
    /// undone. The tempo cannot move once a clip exists, so it is only reported then.
    pub open spec fn presses_tempo(self, direction: i32, now: Nanos) -> Self {
        let button = if direction > 0 {
            Control::TempoUp
        } else {
            Control::TempoDown
        };
        match self.tempo_hold {
            Some(hold) => (ControllerView { tempo_hold: None, ..self }).undoes_nudge(
                hold.started_at,
            ).turns_to(
                if self.mode is TimeSignature {
                    Mode::Perform
                } else {
                    Mode::TimeSignature
                },
            ),
            None => if self.has_clip() {
                let shown = self.shows_tempo(now);
                if self.mode is TimeSignature {
                    // The pair is the only way off the signature screen, so the first of them
                    // is remembered even though the tempo itself cannot move.
                    ControllerView {
                        tempo_hold: Some(
                            TempoHold {
                                button,
                                delta: 0,
                                since: now,
                                last: now,
                                started_at: self.tempo,
                                screen: self.mode,
                            },
                        ),
                        ..shown
                    }
                } else {
                    shown
                }
            } else {
                ControllerView {
                    tempo_hold: Some(
                        TempoHold {
                            button,
                            delta: (direction * TEMPO_HOLD_STEP) as i32,
                            since: now,
                            last: now,
                            started_at: self.tempo,
                            screen: self.mode,
                        },
                    ),
                    ..self.nudges_tempo(direction * TEMPO_STEP).touched()
                }
            },
        }
    }

    /// A tempo button coming up. Where the tempo landed is reported, unless it did not move or
    /// the screen is another by now.
    pub open spec fn releases_tempo(self, now: Nanos) -> Self {
        match self.tempo_hold {
            None => self,
            Some(hold) => {
                let ended = (ControllerView { tempo_hold: None, ..self }).touched();
                if self.mode == hold.screen && self.tempo != hold.started_at {
                    ended.shows_tempo(now)
                } else {
                    ended
                }
            },
        }
    }

    /// The click button going down: arms the hold that opens its page, or leaves the page if it
    /// is open, in which case letting go does not turn the click off as well.
    pub open spec fn presses_click(self, now: Nanos) -> Self {
        if self.mode is Subdivision {
            ControllerView {
                click_hold: Some(ClickHold { since: now, used: true, screen: Mode::Perform }),
                ..self.turns_to(Mode::Perform)
            }
        } else {
            ControllerView {
                click_hold: Some(ClickHold { since: now, used: false, screen: self.mode }),
                ..self
            }
        }
    }

    /// The click button coming up: a tap turns the click on or off. A hold has opened the page
    /// already, and a tap from another screen is no longer this screen's to answer.
    pub open spec fn releases_click(self) -> Self {
        match self.click_hold {
            None => self,
            Some(hold) => {
                let ended = ControllerView { click_hold: None, ..self };
                let enabled = !self.chrome.click_enabled;
                if !hold.used && self.mode == hold.screen {
                    ended.with_chrome(
                        Chrome { click_enabled: enabled, ..self.chrome },
                    ).commands(Command::SetClickEnabled(enabled)).touched()
                } else {
                    ended
                }
            },
        }
    }

    /// The click's page, opened once its button has been held long enough.
    pub open spec fn opens_click_page(self, now: Nanos) -> Self {
        match self.click_hold {
            Some(hold) if !hold.used && self.mode == hold.screen && passed(now, hold.since)
                >= CLICK_HOLD => ControllerView {
                click_hold: Some(ClickHold { used: true, ..hold }),
                ..self.turns_to(Mode::Subdivision)
            },
            _ => self,
        }
    }

    /// The tempo moved again while a button stays down. On the signature screen these buttons
    /// are the way out, and a hold from another screen moves nothing here.
    pub open spec fn repeats_tempo(self, now: Nanos) -> Self {
        match self.tempo_hold {
            Some(hold) if !(self.mode is TimeSignature) && self.mode == hold.screen && passed(
                now,
                hold.since,
            ) >= TEMPO_HOLD_DELAY && passed(now, hold.last) >= TEMPO_HOLD_INTERVAL =>
                ControllerView {
                tempo_hold: Some(TempoHold { last: now, ..hold }),
                ..self.nudges_tempo(hold.delta as int).touched()
            },
            _ => self,
        }
    }

    /// Whether a held tempo button is climbing on the screen showing.
    pub open spec fn repeating(self) -> bool {
        self.tempo_hold matches Some(hold) && hold.last > hold.since && self.mode == hold.screen
    }
}

/// The rate that clicks once a beat.
pub open spec fn fitting_rate(signature: TimeSignature) -> Subdivision {
    if signature.unit() == 1 {
        Subdivision::Whole
    } else if signature.unit() == 2 {
        Subdivision::Half
    } else if signature.unit() == 4 {
        Subdivision::Quarter
    } else if signature.unit() == 8 {
        Subdivision::Eighth
    } else {
        Subdivision::Sixteenth
    }
}

/// How a signature reads.
pub open spec fn signature_text(signature: TimeSignature) -> Seq<char> {
    digits(signature.beats()) + "/"@ + digits(signature.unit())
}

/// How a tempo reads: the nearest whole number.
pub open spec fn tempo_text(tempo: Tempo) -> Seq<char> {
    digits(nearest_up(tempo.units(), BPM_UNIT as int))
}

impl Controller {
    /// There is an entry for every pad.
    proof fn sized(&self)
        ensures
            self@.held.len() == 64,
    {
        assert(self.held@.len() == 64);
    }

    fn command(&mut self, command: Command)
        ensures
            final(self)@ == old(self)@.commands(command),
    {
        self.work.push(Work::Command(command));
    }

    fn request(&mut self, request: Request)
        ensures
            final(self)@ == old(self)@.requests(request),
    {
        self.work.push(Work::Request(request));
    }

    /// What every track should be set to.
    pub fn settings(&self) -> (r: Settings)
        ensures
            r == settings_of(self@.chrome),
    {
        Settings {
            gains: self.chrome.gains,
            muted: self.chrome.muted,
            soloed: self.chrome.soloed,
            inputs: self.chrome.inputs,
            launch_modes: self.chrome.launch_modes,
            pickups: self.chrome.pickups,
            polyphony: self.chrome.polyphony,
            pans: self.chrome.pans,
            loop_gains: [[UNITY_STEP; 8]; 8],
            loop_pans: [[CENTRE_STEP; 8]; 8],
            passthrough: [false; 8],
        }
    }

    /// Notes that the settings moved, in its place among everything else asked for.
    ///
    /// They go through the same queue as the rest, so nothing can overtake them. Adjacent
    /// changes coalesce into the later one, which cannot cross anything else.
    fn mark_settings(&mut self)
        ensures
            final(self)@ == old(self)@.marks_settings(),
    {
        let settings: Settings = self.settings();
        let count: usize = self.work.len();
        if count > 0 {
            if let Work::Command(Command::SetSettings(_)) = self.work[count - 1] {
                self.work.set(count - 1, Work::Command(Command::SetSettings(settings)));
                return ;
            }
        }
        self.command(Command::SetSettings(settings));
    }

    /// Puts text on the grid for [`TEXT_DURATION`].
    fn scroll(&mut self, text: String, now: Nanos)
        requires
            now <= LONGEST,
        ensures
            final(self)@ == old(self)@.scrolls(text@, now),
    {
        self.text = Some(TextUpdate::Show(text));
        self.text_until = Some(now + TEXT_DURATION);
        self.dirty = true;
    }

    /// Holds the grid at one colour for [`RESULT_FLASH`], then scrolls `follow`.
    ///
    /// Text already on the grid is stopped first.
    fn show(&mut self, color: LedColor, now: Nanos, follow: Option<String>)
        requires
            now <= LONGEST,
        ensures
            final(self)@ == old(self)@.shows(color, now, said(follow)),
    {
        if self.text_running || self.text_until.is_some() {
            self.text = Some(TextUpdate::Stop);
            self.text_until = None;
        }
        self.flash = Some(Flash { color, until: now + RESULT_FLASH, follow });
        self.dirty = true;
    }

    /// Sets a track's level, taken from the column pressed.
    fn set_level(&mut self, addr: SlotAddr)
        ensures
            final(self)@ == old(self)@.sets_level(addr),
    {
        let track: usize = addr.track.index();
        let step: u8 = addr.slot.index() as u8;
        self.chrome.gains[track] = step;
        assert(self.chrome.gains =~= with_entry(old(self).chrome.gains, track as int, step));
        self.mark_settings();
        self.dirty = true;
    }

    /// Moves the pad's track across the stereo field. Pads past the row do nothing.
    fn set_pan(&mut self, addr: SlotAddr)
        ensures
            final(self)@ == old(self)@.sets_pan(addr),
    {
        if addr.slot.index() >= PAN_STEPS {
            return ;
        }
        let track: usize = addr.track.index();
        let step: u8 = addr.slot.index() as u8;
        self.chrome.pans[track] = step;
        assert(self.chrome.pans =~= with_entry(old(self).chrome.pans, track as int, step));
        self.mark_settings();
        self.dirty = true;
    }

    /// Sets which channels the pad's track records, if the device offers them.
    ///
    /// A press on its own takes that one channel. A press while another pad on the same
    /// row is still down takes both, lower channel on the left.
    fn press_input(&mut self, addr: SlotAddr)
        ensures
            final(self)@ == old(self)@.presses_input(addr),
    {
        let column: usize = addr.slot.index();
        let track: usize = addr.track.index();
        if column >= self.chrome.input_count {
            return ;
        }
        let channel: u8 = column as u8;
        let mut paired: Option<u8> = None;
        if let Some(held) = self.input_held {
            if held.track == addr.track && held.slot != addr.slot {
                paired = Some(held.slot.index() as u8);
            }
        }
        let input: TrackInput = match paired {
            Some(first) => TrackInput::pair(first, channel),
            None => {
                self.input_held = Some(addr);
                TrackInput::Mono(channel)
            },
        };
        self.chrome.inputs[track] = input;
        assert(self.chrome.inputs =~= with_entry(old(self).chrome.inputs, track as int, input));
        self.mark_settings();
        self.dirty = true;
    }

    /// Flips the setting the pad's column stands for.
    fn toggle_setting(&mut self, addr: SlotAddr)
        ensures
            final(self)@ == old(self)@.toggles_setting(addr),
    {
        let track: usize = addr.track.index();
        let column: usize = addr.slot.index();
        if column == RESTART_COLUMN {
            let next: LaunchMode = self.chrome.launch_modes[track].toggled();
            self.chrome.launch_modes[track] = next;
            assert(self.chrome.launch_modes =~= with_entry(
                old(self).chrome.launch_modes,
                track as int,
                next,
            ));
        } else if column == PICKUP_COLUMN {
            // Off, then a degree per beat the tail can stand in for.
            let degrees: u8 = degrees_in(self.chrome.signature);
            let current: u8 = self.chrome.pickups[track];
            let next: u8 = if current >= degrees {
                0
            } else {
                current + 1
            };
            self.chrome.pickups[track] = next;
            assert(self.chrome.pickups =~= with_entry(
                old(self).chrome.pickups,
                track as int,
                next,
            ));
        } else if column == POLYPHONY_COLUMN {
            let next: Polyphony = self.chrome.polyphony[track].toggled();
            self.chrome.polyphony[track] = next;
            assert(self.chrome.polyphony =~= with_entry(
                old(self).chrome.polyphony,
                track as int,
                next,
            ));
        } else {
            return ;
        }
        self.mark_settings();
        self.dirty = true;
    }

    /// Silences or frees the row or column a pad sits in.
    fn toggle_group(&mut self, addr: SlotAddr)
        ensures
            final(self)@ == old(self)@.toggles_group(addr),
    {
        let group: PadMask = match self.chrome.axis {
            Axis::Row => row_mask(addr.track),
            Axis::Column => column_mask(addr.slot),
        };
        let solo: bool = matches!(self.mode, Mode::Solo);
        let marks: PadMask = if solo {
            self.chrome.soloed
        } else {
            self.chrome.muted
        };
        // The pad pressed decides, so a part-set group turns fully on rather than
        // toggling each pad separately.
        let next: PadMask = if marks & pad_bit(addr) == 0 {
            marks | group
        } else {
            marks & !group
        };
        if solo {
            self.chrome.soloed = next;
        } else {
            self.chrome.muted = next;
        }
        self.mark_settings();
        self.dirty = true;
    }

    /// Shows a signature without touching anything that depends on it.
    ///
    /// Used for a change the engine has not confirmed, so a refusal only has this to undo.
    fn show_signature_state(&mut self, signature: TimeSignature)
        ensures
            final(self)@ == old(self)@.shows_signature(signature),
    {
        self.time_signature = signature;
        self.chrome.signature = signature;
        self.dirty = true;
    }

    /// Takes a signature the engine is known to be running, and everything that follows.
    fn adopt_signature(&mut self, signature: TimeSignature)
        ensures
            final(self)@ == old(self)@.adopts_signature(signature),
    {
        self.show_signature_state(signature);
        self.confirmed_signature = signature;

        // A rate the bar cannot be cut into falls back to one click a beat.
        if !self.chrome.subdivision.fits(signature) {
            let fitting: Subdivision = Subdivision::fitting(signature);
            self.chrome.subdivision = fitting;
            self.command(Command::SetClickSubdivision(fitting));
        }
        let ghost rated = self@;
        // A pickup cannot reach past the bar it opens from.
        let degrees: u8 = degrees_in(signature);
        let mut pulled: bool = false;
        let mut track: usize = 0;
        while track < 8
            invariant
                track <= 8,
                degrees == pickup_degrees(signature),
                self@ == rated.with_chrome(
                    Chrome {
                        pickups: pulled_in(rated.chrome.pickups, degrees as int, track as int),
                        ..rated.chrome
                    },
                ),
                forall|i: int|
                    track <= i < 8 ==> #[trigger] self@.chrome.pickups[i]
                        == rated.chrome.pickups[i],
                pulled == any_past(rated.chrome.pickups, degrees as int, track as int),
            decreases 8 - track,
        {
            let pickup: u8 = self.chrome.pickups[track];
            assert(pickup == rated.chrome.pickups[track as int]);
            let ghost before = self.chrome.pickups;
            let next: u8 = if pickup > degrees {
                degrees
            } else {
                pickup
            };
            self.chrome.pickups[track] = next;
            assert(self.chrome.pickups =~= with_entry(before, track as int, next));
            proof {
                past_grows(rated.chrome.pickups, degrees as int, track as int);
            }
            if pickup > degrees {
                pulled = true;
            }
            track += 1;
        }
        if pulled {
            self.mark_settings();
        }
    }

    /// Empties everything and leaves the picker on a session with no name.
    fn start_fresh(&mut self)
        ensures
            final(self)@ == old(self)@.starts_fresh(),
    {
        self.session = SessionModel::new();
        self.chrome.muted = 0;
        self.chrome.soloed = 0;
        self.chrome.paused = false;
        self.current = None;
        self.mode = Mode::Perform;

        self.chrome.gains = [UNITY_STEP; 8];
        self.chrome.inputs = [self.default_input; 8];
        self.chrome.launch_modes = [self.default_launch_mode; 8];
        self.chrome.pickups = [0; 8];
        self.chrome.polyphony = [Polyphony::Single; 8];
        self.chrome.pans = [CENTRE_STEP; 8];
        self.mark_settings();
        self.command(Command::ClearAll);
        self.command(Command::SetPaused(false));

        // After the clear, so the engine is no longer holding clips to protect and takes
        // the change rather than refusing it.
        self.tempo = self.default_tempo;
        self.tempo_before_request = self.default_tempo;
        self.command(Command::SetTempo(self.default_tempo));
        self.adopt_signature(self.default_time_signature);
        self.command(Command::SetTimeSignature(self.default_time_signature));
        self.dirty = true;
    }

    /// Saves over the pad, asking first if it holds anything.
    fn press_save(&mut self, addr: SlotAddr)
        ensures
            final(self)@ == old(self)@.presses_save(addr),
    {
        if self.sessions & pad_bit(addr) == 0 {
            self.request(Request::SaveSession(addr));
            return ;
        }
        self.mode = Mode::ConfirmSave(addr);
        self.dirty = true;
    }

    /// Loads the pad, asking first if the grid holds anything.
    fn press_load(&mut self, addr: SlotAddr)
        ensures
            final(self)@ == old(self)@.presses_load(addr),
    {
        // Nothing to load from a pad that holds nothing.
        if self.sessions & pad_bit(addr) == 0 {
            return ;
        }
        if !self.session.has_any_clip() {
            self.request(Request::LoadSession(addr));
            return ;
        }
        self.mode = Mode::ConfirmLoad(addr);
        self.dirty = true;
    }

    /// Takes yes or no to the question the grid is asking. Any other pad is ignored.
    fn answer(&mut self, addr: SlotAddr)
        ensures
            final(self)@ == old(self)@.answers(addr),
    {
        let track: usize = addr.track.index();
        let slot: usize = addr.slot.index();
        if track == 0 && slot == 7 {
            self.cancel_picker();
            return ;
        }
        if track != 0 || slot != 0 {
            return ;
        }
        match self.mode {
            Mode::ConfirmSave(pad) => self.request(Request::SaveSession(pad)),
            Mode::ConfirmLoad(pad) => self.request(Request::LoadSession(pad)),
            _ => {
                return ;
            },
        }
        self.mode = Mode::Perform;
        self.dirty = true;
    }

    /// Opens a picker, or closes it if it was already open.
    fn set_mode(&mut self, wanted: Mode)
        ensures
            final(self)@ == old(self)@.sets_mode(wanted),
    {
        self.input_held = None;
        self.mode = if self.mode == wanted {
            Mode::Perform
        } else {
            wanted
        };
        self.dirty = true;
    }

    /// Changes how often the click sounds. Never locked: no clip depends on it.
    fn press_subdivision(&mut self, subdivision: Subdivision, now: Nanos)
        requires
            now <= LONGEST,
        ensures
            final(self)@ == old(self)@.presses_rate(subdivision, now),
    {
        // A rate the bar cannot be cut into is shown greyed, and does nothing.
        if !subdivision.fits(self.chrome.signature) {
            return ;
        }
        if subdivision != self.chrome.subdivision {
            self.chrome.subdivision = subdivision;
            self.command(Command::SetClickSubdivision(subdivision));
            self.dirty = true;
        }
        self.scroll(String::from_str(subdivision.name()), now);
    }

    /// Changes one number of the signature, taking effect at once so it can be heard.
    fn press_time_signature(&mut self, next: TimeSignature, now: Nanos)
        requires
            now <= LONGEST,
        ensures
            final(self)@ == old(self)@.presses_signature(next, now),
    {
        // Locked while clips exist, the same as the tempo, so it only reports.
        if self.session.has_any_clip() {
            let current: TimeSignature = self.time_signature;
            self.show_signature(current, now);
            return ;
        }
        if next != self.time_signature {
            // Shown at once so it can be heard, but nothing that depends on it moves
            // until the engine says it took the change. The value to fall back to stays
            // the last one the engine confirmed, however many presses go unanswered.
            self.show_signature_state(next);
            self.command(Command::SetTimeSignature(next));
        }
        self.show_signature(next, now);
    }

    /// Puts a signature on the grid the way the tempo puts its number there.
    fn show_signature(&mut self, signature: TimeSignature, now: Nanos)
        requires
            now <= LONGEST,
        ensures
            final(self)@ == old(self)@.scrolls(signature_text(signature), now),
    {
        let mut text: String = decimal(signature.beats_per_bar() as u64);
        text.append("/");
        text.append(decimal(signature.beat_unit() as u64).as_str());
        self.scroll(text, now);
    }

    /// Freezes or resumes the transport.
    fn toggle_paused(&mut self)
        ensures
            final(self)@ == old(self)@.toggles_paused(),
    {
        let paused: bool = !self.chrome.paused;
        self.chrome.paused = paused;
        self.command(Command::SetPaused(paused));
        self.dirty = true;
    }

    /// Puts the tempo on the grid for long enough to read.
    fn show_tempo(&mut self, now: Nanos)
        requires
            now <= LONGEST,
        ensures
            final(self)@ == old(self)@.shows_tempo(now),
    {
        let shown: u32 = self.tempo.rounded();
        self.scroll(decimal(shown as u64), now);
    }

    fn nudge_tempo(&mut self, delta: i32)
        ensures
            final(self)@ == old(self)@.nudges_tempo(delta as int),
    {
        let wanted: Tempo = self.tempo.nudged(delta);
        // Already against the end of the range, so there is nothing to ask for.
        if wanted == self.tempo {
            return ;
        }
        // Assume it lands; the engine only speaks up when it does not.
        self.tempo_before_request = self.tempo;
        self.tempo = wanted;
        self.command(Command::SetTempo(wanted));
    }

    /// Puts the tempo back to `was`, in the engine as well as on the display.
    ///
    /// Drops any nudge still queued: one authoritative value goes out instead, since the
    /// earlier one may already have been drained.
    fn undo_nudge(&mut self, was: Tempo)
        ensures
            final(self)@ == old(self)@.undoes_nudge(was),
    {
        let mut kept: Vec<Work> = Vec::with_capacity(self.work.len());
        let mut index: usize = 0;
        let ghost keeps = |work: Work| !sets_tempo(work);
        proof {
            assert(self.work@.take(0) =~= Seq::empty());
            reveal(Seq::filter);
        }
        while index < self.work.len()
            invariant
                index <= self.work@.len(),
                *self == *old(self),
                keeps == (|work: Work| !sets_tempo(work)),
                kept@ == self.work@.take(index as int).filter(keeps),
            decreases self.work@.len() - index,
        {
            let work: Work = self.work[index];
            proof {
                reveal(Seq::filter);
                let longer = self.work@.take(index + 1);
                assert(longer.drop_last() =~= self.work@.take(index as int));
                assert(longer.last() == work);
            }
            let drops: bool = matches!(work, Work::Command(Command::SetTempo(_)));
            if !drops {
                kept.push(work);
            }
            index += 1;
        }
        assert(self.work@.take(index as int) =~= self.work@);
        self.work = kept;
        self.tempo = was;
        self.tempo_before_request = was;
        self.command(Command::SetTempo(was));
        self.dirty = true;
    }

    /// Nudges once and arms the repeat, or just reports the tempo if it is locked.
    ///
    /// The tempo cannot move once a clip exists.
    fn press_tempo(&mut self, direction: i32, now: Nanos)
        requires
            now <= LONGEST,
            direction == 1 || direction == -1,
        ensures
            final(self)@ == old(self)@.presses_tempo(direction, now),
    {
        let button: Control = if direction > 0 {
            Control::TempoUp
        } else {
            Control::TempoDown
        };
        // Both tempo buttons at once asks for the signature, so the first nudge is undone.
        if let Some(hold) = self.tempo_hold {
            self.tempo_hold = None;
            self.undo_nudge(hold.started_at);
            self.mode = if matches!(self.mode, Mode::TimeSignature) {
                Mode::Perform
            } else {
                Mode::TimeSignature
            };
            self.dirty = true;
            return ;
        }
        let before: Tempo = self.tempo;
        if self.session.has_any_clip() {
            self.show_tempo(now);
            // The pair is the only way off the signature screen, so the first of them is
            // remembered even though the tempo itself cannot move.
            if matches!(self.mode, Mode::TimeSignature) {
                self.tempo_hold = Some(
                    TempoHold {
                        button,
                        delta: 0,
                        since: now,
                        last: now,
                        started_at: before,
                        screen: self.mode,
                    },
                );
            }
            return ;
        }
        self.nudge_tempo(direction * TEMPO_STEP);
        self.dirty = true;
        self.tempo_hold = Some(
            TempoHold {
                button,
                delta: direction * TEMPO_HOLD_STEP,
                since: now,
                last: now,
                started_at: before,
                screen: self.mode,
            },
        );
    }

    /// Whether a held tempo button is climbing on the screen showing.
    ///
    /// A hold from another screen keeps its gauge there: this one paints its own grid.
    fn tempo_repeating(&self) -> (r: bool)
        ensures
            r == self@.repeating(),
    {
        match self.tempo_hold {
            Some(hold) => hold.last > hold.since && self.mode == hold.screen,
            None => false,
        }
    }

    /// Stops the repeat and reports where the tempo landed.
    ///
    /// Shown on release, since each update restarts the scroll from the edge. A press that
    /// moved nothing says nothing.
    fn release_tempo(&mut self, now: Nanos)
        requires
            now <= LONGEST,
        ensures
            final(self)@ == old(self)@.releases_tempo(now),
    {
        let hold: TempoHold = match self.tempo_hold {
            Some(hold) => hold,
            None => {
                return ;
            },
        };
        self.tempo_hold = None;
        // The gauge had the grid; whatever comes next has to redraw it.
        self.dirty = true;
        if self.mode != hold.screen {
            // Let go on another screen: the gesture ends, and says nothing here.
            return ;
        }
        if self.tempo != hold.started_at {
            self.show_tempo(now);
        }
    }

    /// Arms the hold that opens the click's page, or leaves the page if it is open.
    fn press_click(&mut self, now: Nanos)
        ensures
            final(self)@ == old(self)@.presses_click(now),
    {
        if matches!(self.mode, Mode::Subdivision) {
            self.mode = Mode::Perform;
            self.dirty = true;
            // Used, so letting go does not turn the click off as well.
            self.click_hold = Some(ClickHold { since: now, used: true, screen: self.mode });
        } else {
            self.click_hold = Some(ClickHold { since: now, used: false, screen: self.mode });
        }
    }

    /// A tap turns the click on or off. A hold has opened the page already.
    fn release_click(&mut self)
        ensures
            final(self)@ == old(self)@.releases_click(),
    {
        let hold: ClickHold = match self.click_hold {
            Some(hold) => hold,
            None => {
                return ;
            },
        };
        self.click_hold = None;
        // A tap that went down on another screen has already been answered there, or is
        // no longer this screen's to answer.
        if !hold.used && self.mode == hold.screen {
            let enabled: bool = !self.chrome.click_enabled;
            self.chrome.click_enabled = enabled;
            self.command(Command::SetClickEnabled(enabled));
            self.dirty = true;
        }
    }

    /// Opens the click's page once its button has been held long enough.
    fn open_click_page(&mut self, now: Nanos)
        ensures
            final(self)@ == old(self)@.opens_click_page(now),
    {
        let hold: ClickHold = match self.click_hold {
            Some(hold) => hold,
            None => {
                return ;
            },
        };
        if hold.used || self.mode != hold.screen || now.saturating_sub(hold.since) < CLICK_HOLD {
            return ;
        }
        self.click_hold = Some(ClickHold { used: true, ..hold });
        self.mode = Mode::Subdivision;
        self.dirty = true;
    }

    /// Moves the tempo again while a button stays down.
    fn repeat_tempo(&mut self, now: Nanos)
        ensures
            final(self)@ == old(self)@.repeats_tempo(now),
    {
        // On the signature screen these buttons are the way out, not the tempo.
        if matches!(self.mode, Mode::TimeSignature) {
            return ;
        }
        let hold: TempoHold = match self.tempo_hold {
            Some(hold) => hold,
            None => {
                return ;
            },
        };
        // A hold from another screen keeps its place there, and moves nothing here.
        if self.mode != hold.screen {
            return ;
        }
        if now.saturating_sub(hold.since) < TEMPO_HOLD_DELAY || now.saturating_sub(hold.last)
            < TEMPO_HOLD_INTERVAL {
            return ;
        }
        self.nudge_tempo(hold.delta);
        self.tempo_hold = Some(TempoHold { last: now, ..hold });
        self.dirty = true;
    }

    /// Leaves the picker without doing anything, after a request failed.
    pub fn cancel_picker(&mut self)
        ensures
            final(self)@ == old(self)@.turns_to(Mode::Perform),
    {
        self.mode = Mode::Perform;
        self.dirty = true;
    }
}

proof fn past_grows(pickups: [u8; 8], most: int, to: int)
    requires
        0 <= to < 8,
    ensures
        any_past(pickups, most, to + 1) <==> any_past(pickups, most, to) || pickups[to] > most,
{
    if any_past(pickups, most, to) {
        let track = choose|track: int| 0 <= track < to && #[trigger] pickups[track] > most;
        assert(pickups[track] > most);
    }
}

/// The degrees a pickup has in a signature.
fn degrees_in(signature: TimeSignature) -> (r: u8)
    ensures
        r == pickup_degrees(signature),
{
    let beats: u32 = signature.beats_per_bar() - 1;
    if beats < SHADES as u32 - 1 {
        beats as u8
    } else {
        SHADES - 1
    }
}

/// Pads before a place that have been held long enough to warn, and not long enough to empty.
pub open spec fn warned(held: Seq<Option<Nanos>>, now: Nanos, to: int) -> PadMask
    decreases to,
{
    if to <= 0 {
        0
    } else {
        let before = warned(held, now, to - 1);
        match held[to - 1] {
            Some(since) if CLEAR_WARNING <= passed(now, since) < CLEAR_HOLD => before | (1u64 << (
            (to - 1) as u64)),
            _ => before,
        }
    }
}

impl ControllerView {
    /// The beat indicator goes dark once its time has come.
    pub open spec fn darkens_beat(self, now: Nanos) -> Self {
        match self.beat_off {
            Some(until) if now >= until => (ControllerView { beat_off: None, ..self }).with_chrome(
                Chrome { beat_lit: false, ..self.chrome },
            ).touched(),
            _ => self,
        }
    }

    /// A colour over the whole grid ends once its time has come, and what follows it is
    /// scrolled.
    pub open spec fn ends_flash(self, now: Nanos) -> Self {
        match self.flash {
            Some(flash) if now >= flash.until => {
                let ended = (ControllerView { flash: None, ..self }).touched();
                match flash.follow {
                    Some(text) => ended.scrolls(text, now),
                    None => ended,
                }
            },
            _ => self,
        }
    }

    /// Text leaves the grid once its time has come.
    pub open spec fn ends_text(self, now: Nanos) -> Self {
        match self.text_until {
            Some(until) if now >= until => (ControllerView {
                text_until: None,
                text: Some(TextView::Stop),
                ..self
            }).touched(),
            _ => self,
        }
    }

    /// The pads before a place that have been held long enough are emptied, each once.
    pub open spec fn empties_pads(self, now: Nanos, to: int) -> Self
        decreases to,
    {
        if to <= 0 {
            self
        } else {
            let before = self.empties_pads(now, to - 1);
            match self.held[to - 1] {
                Some(since) if passed(now, since) >= CLEAR_HOLD => (ControllerView {
                    held: before.held.update(to - 1, None),
                    ..before
                }).commands(Command::Clear(SlotAddr::at(to - 1))),
                _ => before,
            }
        }
    }

    /// The warning lights follow the pads that are about to empty.
    pub open spec fn warns(self, warning: PadMask) -> Self {
        if warning != self.warning {
            (ControllerView { warning, ..self }).touched()
        } else {
            self
        }
    }

    /// Everything that depends on time passing rather than on an event.
    pub open spec fn ticks(self, now: Nanos) -> Self {
        let held = self.held;
        self.repeats_tempo(now).opens_click_page(now).darkens_beat(now).ends_flash(now).ends_text(
            now,
        ).empties_pads(now, 64).warns(warned(held, now, 64))
    }

    /// A grid pad going down, according to what it means on this screen.
    pub open spec fn presses_pad(self, addr: SlotAddr, now: Nanos) -> Self {
        match role_of(self.mode, Button::Grid(addr)) {
            // Nothing yet: which gesture this is depends on how long it lasts.
            Role::Loop => ControllerView {
                held: self.held.update(addr.place(), Some(now)),
                ..self
            },
            Role::Answer => self.answers(addr),
            Role::SaveTo => self.presses_save(addr),
            Role::LoadFrom => self.presses_load(addr),
            Role::Group => self.toggles_group(addr),
            Role::Level => self.sets_level(addr),
            Role::Pan => self.sets_pan(addr),
            Role::InputChannel => self.presses_input(addr),
            Role::Setting => self.toggles_setting(addr),
            Role::Beats(beats) => self.presses_signature(
                TimeSignature::of(beats as int, self.time_signature.unit()),
                now,
            ),
            Role::Unit(unit) => self.presses_signature(
                TimeSignature::of(self.time_signature.beats(), unit as int),
                now,
            ),
            Role::Rate(rate) => self.presses_rate(rate, now),
            _ => self,
        }
    }

    /// A grid pad coming up. A hold that completed already emptied the pad, so only a release
    /// that still has an entry is a tap.
    pub open spec fn releases_pad(self, addr: SlotAddr) -> Self {
        if self.input_held == Some(addr) {
            ControllerView { input_held: None, ..self }
        } else if self.held[addr.place()] is Some {
            (ControllerView { held: self.held.update(addr.place(), None), ..self }).commands(
                Command::Press(addr),
            )
        } else {
            self
        }
    }

    /// A top-row or side button going down, according to what it means on this screen.
    pub open spec fn presses_button(self, button: Button, now: Nanos) -> Self {
        match role_of(self.mode, button) {
            Role::Transport => self.toggles_paused(),
            Role::Tempo(direction) => self.presses_tempo(direction, now),
            Role::Click => self.presses_click(now),
            Role::StopAll => self.commands(Command::StopAll),
            Role::Rewind => self.commands(Command::Rewind),
            Role::Axis => self.with_chrome(
                Chrome {
                    axis: if self.chrome.axis is Row {
                        Axis::Column
                    } else {
                        Axis::Row
                    },
                    ..self.chrome
                },
            ).touched(),
            Role::NewSession => self.starts_fresh(),
            Role::Open(mode) => self.sets_mode(mode),
            _ => self,
        }
    }

    /// Something the performer did. A gesture ends with the button itself: a hold begun on one
    /// screen can be let go on another, and has to end either way.
    pub open spec fn takes_gesture(self, event: SurfaceEvent, now: Nanos) -> Self {
        match event {
            SurfaceEvent::PadPressed { addr, velocity: _ } => self.presses_pad(addr, now),
            SurfaceEvent::PadReleased { addr } => self.releases_pad(addr),
            SurfaceEvent::ControlPressed(control) => self.presses_button(
                Button::Top(control),
                now,
            ),
            SurfaceEvent::ControlReleased(control) => match control {
                Control::TempoDown => self.releases_tempo(now),
                Control::TempoUp => self.releases_tempo(now),
                Control::ClickToggle => self.releases_click(),
                _ => self,
            },
            SurfaceEvent::SidePressed { index } => self.presses_button(
                Button::Side(index as usize),
                now,
            ),
            SurfaceEvent::SideReleased { index: _ } => self,
        }
    }

    /// The beat the transport is on, lit for half of it.
    pub open spec fn lights_beat(self, beat: u32, now: Nanos) -> Self {
        let shown = if beat != self.chrome.beat || !self.chrome.beat_lit {
            self.with_chrome(Chrome { beat, beat_lit: true, ..self.chrome }).touched()
        } else {
            self
        };
        ControllerView {
            beat_off: Some((now + lit_nanos(self.tempo, self.chrome.signature)) as Nanos),
            ..shown
        }
    }

    /// A tempo change turned down. A number that has just been rolled back is worse than none.
    pub open spec fn rolls_tempo_back(self) -> Self {
        let back = ControllerView { tempo: self.tempo_before_request, ..self };
        if self.text_until is Some {
            (ControllerView { text_until: None, text: Some(TextView::Stop), ..back }).touched()
        } else {
            back
        }
    }

    /// The tempo the engine is running at, however the change was asked for.
    pub open spec fn takes_tempo(self, tempo: Tempo) -> Self {
        (ControllerView { tempo, tempo_before_request: tempo, ..self }).touched()
    }

    /// Nothing was loaded.
    pub open spec fn fails_load(self, now: Nanos, code: Option<Seq<char>>) -> Self {
        (ControllerView { mode: Mode::Perform, ..self }).shows(LedColor::Red, now, code)
    }

    /// Something the engine reported. Its own values win.
    pub open spec fn takes_report(self, event: Event, now: Nanos) -> Self {
        match event {
            Event::SlotChanged { addr, state } => (ControllerView {
                session: self.session.update(addr.place(), state),
                ..self
            }).touched(),
            Event::Beat { bar: _, beat } => self.lights_beat(beat, now),
            Event::TimeSignature { beats_per_bar, beat_unit } => if beats_per_bar > 0
                && power_of_two(beat_unit as int) {
                self.adopts_signature(TimeSignature::of(beats_per_bar as int, beat_unit as int))
            } else {
                self
            },
            Event::TimeSignatureRejected => self.shows_signature(self.confirmed_signature),
            Event::TempoRejected => self.rolls_tempo_back(),
            Event::Tempo { bpm } => self.takes_tempo(bpm),
            // A take with nowhere to go says so on the whole grid: the session is full, not
            // that pad.
            Event::RecordingRefused { addr: _ } => self.shows(LedColor::Red, now, None),
            Event::LoadRefused { wanted, allowed: _ } => self.fails_load(
                now,
                Some(digits(wanted as int)),
            ),
            _ => self,
        }
    }

    /// The picture the grid shows, before anything is marked on it.
    pub open spec fn page(self) -> Page {
        match self.mode {
            Mode::Volume => Page::Volumes,
            Mode::Pan => Page::Pans,
            Mode::Input => Page::Inputs,
            Mode::Settings => Page::Settings,
            Mode::TimeSignature => Page::TimeSignature,
            Mode::Subdivision => Page::Subdivisions,
            // A number cannot track a tempo that is still moving, so the grid shows it
            // instead until the button is let go.
            _ => if self.repeating() {
                Page::TempoGauge
            } else {
                match self.mode {
                    Mode::ConfirmSave(_) => Page::Confirm,
                    Mode::ConfirmLoad(_) => Page::Confirm,
                    Mode::SavePicker => Page::Picker(Control::SaveSession),
                    Mode::LoadPicker => Page::Picker(Control::LoadSession),
                    _ => Page::Loops,
                }
            },
        }
    }

    /// Text on the grid is cut off by a change of screen: the buttons around it would answer
    /// for a screen that is no longer showing.
    pub open spec fn cuts_text(self) -> Self {
        if self.text_running && self.painted != self.mode {
            ControllerView { text: Some(TextView::Stop), text_until: None, ..self }
        } else {
            self
        }
    }

    /// A display change was taken: text has the grid from when it is shown until it is stopped.
    pub open spec fn takes_text(self) -> Self {
        match self.text {
            Some(update) => ControllerView { text: None, text_running: update is Show, ..self },
            None => self,
        }
    }

    /// Whether there is a frame to show: something changed, and no text has the grid.
    pub open spec fn has_frame(self) -> bool {
        self.dirty && !self.text_running
    }

    /// A frame was taken.
    pub open spec fn painted(self) -> Self {
        ControllerView { painted: self.mode, dirty: false, ..self }
    }
}

/// Whether a button blinks, as the way out of a screen.
pub open spec fn waits(mode: Mode, button: Button) -> bool {
    ways_out(mode).0 == Some(button) || ways_out(mode).1 == Some(button)
}

/// The light of a top-row button, over what the page shows there. A button with no part to play
/// is dark, the beat shows from anywhere, the way out blinks, and a held tempo button is steady
/// until it starts repeating.
pub open spec fn top_light(v: ControllerView, control: Control, page: Led) -> Led {
    let held = v.tempo_hold matches Some(hold) && v.mode == hold.screen && hold.button == control;
    if held {
        Led {
            color: selected(),
            style: if v.repeating() {
                LedStyle::Flash
            } else {
                LedStyle::Solid
            },
        }
    } else if waits(v.mode, Button::Top(control)) {
        Led { color: selected(), style: LedStyle::Flash }
    } else if control.place() == FIRST_BEAT_LED && v.chrome.beat_lit {
        Led {
            color: if v.chrome.beat == 0 {
                LedColor::Red
            } else {
                LedColor::White
            },
            style: LedStyle::Solid,
        }
    } else if role_of(v.mode, Button::Top(control)) is Inert {
        Led { color: LedColor::White, style: LedStyle::Off }
    } else {
        page
    }
}

/// The light of a side button, over what the page shows there.
pub open spec fn side_light(v: ControllerView, index: int, page: Led) -> Led {
    if waits(v.mode, Button::Side(index as usize)) {
        Led { color: selected(), style: LedStyle::Flash }
    } else if role_of(v.mode, Button::Side(index as usize)) is Inert {
        Led { color: LedColor::White, style: LedStyle::Off }
    } else {
        page
    }
}

/// The light of a pad, over what the page shows there: an answer covers the whole grid, and a
/// hold about to empty a pad says so before the audio disappears.
pub open spec fn pad_light(v: ControllerView, place: int, page: Led) -> Led {
    match v.flash {
        Some(flash) => Led { color: flash.color, style: LedStyle::Solid },
        None => if holds_place(v.warning, place) {
            Led { color: LedColor::White, style: LedStyle::Flash }
        } else {
            page
        },
    }
}

/// The button of the top row at a place.
pub open spec fn control_at(place: int) -> Control {
    if place == 0 {
        Control::TempoUp
    } else if place == 1 {
        Control::TempoDown
    } else if place == 2 {
        Control::Rewind
    } else if place == 3 {
        Control::Axis
    } else if place == 4 {
        Control::LoadSession
    } else if place == 5 {
        Control::ClickToggle
    } else if place == 6 {
        Control::StopAll
    } else {
        Control::SaveSession
    }
}

/// A page with everything marked on it that is waiting on the next press.
pub open spec fn marked(v: ControllerView, page: FrameView) -> FrameView {
    FrameView {
        pads: Seq::new(64, |place: int| pad_light(v, place, page.pads[place])),
        controls: Seq::new(
            8,
            |place: int| top_light(v, control_at(place), page.controls[place]),
        ),
        sides: Seq::new(8, |place: int| side_light(v, place, page.sides[place])),
    }
}

/// A controller as it is first built.
pub open spec fn first_chrome(signature: TimeSignature, click_enabled: bool) -> Chrome {
    Chrome {
        inputs: every(TrackInput::Stereo),
        launch_modes: every(LaunchMode::Follow),
        pickups: every(0),
        polyphony: every(Polyphony::Single),
        pans: every(CENTRE_STEP),
        gains: every(UNITY_STEP),
        input_count: 2,
        beat: 0,
        beat_lit: true,
        subdivision: Subdivision::Quarter,
        signature,
        click_enabled,
        paused: false,
        axis: Axis::Row,
        muted: 0,
        soloed: 0,
    }
}

/// A controller for an empty session. The engine is told what it starts on, before anything
/// else is asked for.
pub open spec fn first_view(
    tempo: Tempo,
    signature: TimeSignature,
    click_enabled: bool,
) -> ControllerView {
    (ControllerView {
        session: Seq::new(64, |i: int| SlotState::Empty),
        chrome: first_chrome(signature, click_enabled),
        tempo,
        default_tempo: tempo,
        time_signature: signature,
        default_time_signature: signature,
        confirmed_signature: signature,
        click_hold: None,
        default_input: TrackInput::Stereo,
        default_launch_mode: LaunchMode::Follow,
        tempo_before_request: tempo,
        held: Seq::new(64, |i: int| None),
        warning: 0,
        input_held: None,
        work: Seq::empty(),
        tempo_hold: None,
        beat_off: None,
        text: None,
        text_until: None,
        text_running: false,
        painted: Mode::Perform,
        flash: None,
        mode: Mode::Perform,
        sessions: 0,
        current: None,
        dirty: true,
    }).marks_settings()
}

fn nothing_held() -> (r: [Option<Nanos>; 64])
    ensures
        r@ == Seq::new(64, |i: int| None::<Nanos>),
{
    let none: Option<Nanos> = None;
    let r: [Option<Nanos>; 64] = [none; 64];
    assert(r@ =~= Seq::new(64, |i: int| None::<Nanos>));
    r
}

impl Controller {
    /// A controller for an empty session.
    pub fn new(tempo: Tempo, time_signature: TimeSignature, click_enabled: bool) -> (r: Self)
        ensures
            r@ == first_view(tempo, time_signature, click_enabled),
    {
        let chrome = Chrome {
            inputs: [TrackInput::Stereo; 8],
            launch_modes: [LaunchMode::Follow; 8],
            pickups: [0; 8],
            polyphony: [Polyphony::Single; 8],
            pans: [CENTRE_STEP; 8],
            gains: [UNITY_STEP; 8],
            input_count: 2,
            beat: 0,
            beat_lit: true,
            subdivision: Subdivision::Quarter,
            signature: time_signature,
            click_enabled,
            paused: false,
            axis: Axis::Row,
            muted: 0,
            soloed: 0,
        };
        let mut controller = Self {
            session: SessionModel::new(),
            chrome,
            tempo,
            default_tempo: tempo,
            time_signature,
            default_time_signature: time_signature,
            confirmed_signature: time_signature,
            click_hold: None,
            default_input: TrackInput::Stereo,
            default_launch_mode: LaunchMode::Follow,
            tempo_before_request: tempo,
            held: nothing_held(),
            warning: 0,
            input_held: None,
            work: Vec::new(),
            tempo_hold: None,
            beat_off: None,
            text: None,
            text_until: None,
            text_running: false,
            painted: Mode::Perform,
            flash: None,
            mode: Mode::Perform,
            sessions: 0,
            current: None,
            dirty: true,
        };
        // The engine is told what it starts on, before anything else is asked for.
        controller.mark_settings();
        controller
    }

    /// The tempo the engine is believed to be running at.
    pub fn tempo(&self) -> (r: Tempo)
        ensures
            r == self@.tempo,
    {
        self.tempo
    }

    /// The mirrored session.
    pub fn session(&self) -> (r: &SessionModel)
        ensures
            r@ == self@.session,
    {
        &self.session
    }

    /// Everything else the grid shows.
    pub fn chrome(&self) -> (r: &Chrome)
        ensures
            *r == self@.chrome,
    {
        &self.chrome
    }

    /// Pads that hold a session.
    pub fn sessions(&self) -> (r: PadMask)
        ensures
            r == self@.sessions,
    {
        self.sessions
    }

    /// Whether the click is believed to be sounding.
    pub fn click_enabled(&self) -> (r: bool)
        ensures
            r == self@.chrome.click_enabled,
    {
        self.chrome.click_enabled
    }

    /// How often the click sounds.
    pub fn subdivision(&self) -> (r: Subdivision)
        ensures
            r == self@.chrome.subdivision,
    {
        self.chrome.subdivision
    }

    /// Whether the transport is believed to be frozen.
    pub fn paused(&self) -> (r: bool)
        ensures
            r == self@.chrome.paused,
    {
        self.chrome.paused
    }

    /// What the grid is showing.
    pub fn mode(&self) -> (r: Mode)
        ensures
            r == self@.mode,
    {
        self.mode
    }

    /// The session in use.
    pub fn current_session(&self) -> (r: Option<SlotAddr>)
        ensures
            r == self@.current,
    {
        self.current
    }

    /// The time signature the transport is in.
    pub fn time_signature(&self) -> (r: TimeSignature)
        ensures
            r == self@.time_signature,
    {
        self.time_signature
    }

    /// The level each track plays at.
    pub fn gains(&self) -> (r: [u8; 8])
        ensures
            r == self@.chrome.gains,
    {
        self.chrome.gains
    }

    /// Beats each track opens its loops from the tail for.
    pub fn pickups(&self) -> (r: [u8; 8])
        ensures
            r == self@.chrome.pickups,
    {
        self.chrome.pickups
    }

    /// Where each track sits across the stereo field.
    pub fn pans(&self) -> (r: [u8; 8])
        ensures
            r == self@.chrome.pans,
    {
        self.chrome.pans
    }

    /// How many of each track's loops may sound at once.
    pub fn polyphony(&self) -> (r: [Polyphony; 8])
        ensures
            r == self@.chrome.polyphony,
    {
        self.chrome.polyphony
    }

    /// Where each track's clips are anchored when launched.
    pub fn launch_modes(&self) -> (r: [LaunchMode; 8])
        ensures
            r == self@.chrome.launch_modes,
    {
        self.chrome.launch_modes
    }

    /// Which input each track records.
    pub fn inputs(&self) -> (r: [TrackInput; 8])
        ensures
            r == self@.chrome.inputs,
    {
        self.chrome.inputs
    }

    /// Takes the pickup settings a loaded session came with.
    pub fn set_pickups(&mut self, pickups: [u8; 8])
        ensures
            final(self)@ == old(self)@.resets(
                Chrome { pickups: pickups, ..old(self)@.chrome },
            ),
    {
        self.chrome.pickups = pickups;
        self.mark_settings();
        self.dirty = true;
    }

    /// Takes the pan settings a loaded session came with.
    pub fn set_pans(&mut self, pans: [u8; 8])
        ensures
            final(self)@ == old(self)@.resets(
                Chrome { pans: pans, ..old(self)@.chrome },
            ),
    {
        self.chrome.pans = pans;
        self.mark_settings();
        self.dirty = true;
    }

    /// Takes the polyphony settings a loaded session came with.
    pub fn set_polyphony(&mut self, polyphony: [Polyphony; 8])
        ensures
            final(self)@ == old(self)@.resets(
                Chrome { polyphony: polyphony, ..old(self)@.chrome },
            ),
    {
        self.chrome.polyphony = polyphony;
        self.mark_settings();
        self.dirty = true;
    }

    /// Takes the modes a loaded session came with.
    pub fn set_launch_modes(&mut self, launch_modes: [LaunchMode; 8])
        ensures
            final(self)@ == old(self)@.resets(
                Chrome { launch_modes: launch_modes, ..old(self)@.chrome },
            ),
    {
        self.chrome.launch_modes = launch_modes;
        self.mark_settings();
        self.dirty = true;
    }

    /// Takes the inputs a loaded session came with.
    pub fn set_inputs(&mut self, inputs: [TrackInput; 8])
        ensures
            final(self)@ == old(self)@.resets(
                Chrome { inputs: inputs, ..old(self)@.chrome },
            ),
    {
        self.chrome.inputs = inputs;
        self.mark_settings();
        self.dirty = true;
    }

    /// Takes the levels a loaded session came with.
    pub fn set_gains(&mut self, gains: [u8; 8])
        ensures
            final(self)@ == old(self)@.resets(
                Chrome { gains: gains, ..old(self)@.chrome },
            ),
    {
        self.chrome.gains = gains;
        self.mark_settings();
        self.dirty = true;
    }

    /// Tells the grid how many inputs the device offers.
    pub fn set_input_count(&mut self, count: usize)
        ensures
            final(self)@ == old(self)@.with_chrome(
                Chrome { input_count: count, ..old(self)@.chrome },
            ).touched(),
    {
        self.chrome.input_count = count;
        self.dirty = true;
    }

    /// The input a fresh session starts every track on.
    pub fn set_default_input(&mut self, input: TrackInput)
        ensures
            final(self)@ == (ControllerView { default_input: input, ..old(self)@ }),
    {
        self.default_input = input;
    }

    /// The launch mode a fresh session starts every track on.
    pub fn set_default_launch_mode(&mut self, mode: LaunchMode)
        ensures
            final(self)@ == (ControllerView { default_launch_mode: mode, ..old(self)@ }),
    {
        self.default_launch_mode = mode;
    }

    /// The signature a fresh session goes back to.
    pub fn set_default_time_signature(&mut self, signature: TimeSignature)
        ensures
            final(self)@ == (ControllerView { default_time_signature: signature, ..old(self)@ }),
    {
        self.default_time_signature = signature;
    }

    /// Tells the controller which pads hold sessions.
    pub fn set_sessions(&mut self, sessions: &Vec<SlotAddr>)
        ensures
            final(self)@ == (ControllerView {
                sessions: final(self)@.sessions,
                ..old(self)@
            }).touched(),
            forall|addr: SlotAddr|
                addr.wf() ==> (#[trigger] holds(final(self)@.sessions, addr)
                    <==> sessions@.contains(addr)),
    {
        let mut mask: PadMask = 0;
        let mut index: usize = 0;
        proof {
            assert forall|addr: SlotAddr| addr.wf() implies (#[trigger] holds(mask, addr)
                <==> sessions@.take(0).contains(addr)) by {
                none_held(addr.place());
            }
        }
        while index < sessions.len()
            invariant
                index <= sessions@.len(),
                *self == *old(self),
                forall|addr: SlotAddr|
                    addr.wf() ==> (#[trigger] holds(mask, addr) <==> sessions@.take(
                        index as int,
                    ).contains(addr)),
            decreases sessions@.len() - index,
        {
            let addr: SlotAddr = sessions[index];
            let ghost before = mask;
            let place: usize = addr.index();
            mask = mask | pad_bit(addr);
            proof {
                let longer = sessions@.take(index + 1);
                let shorter = sessions@.take(index as int);
                assert(longer =~= shorter.push(addr));
                or_bit(before, place as u64);
                assert forall|other: SlotAddr| other.wf() implies (#[trigger] holds(mask, other)
                    <==> longer.contains(other)) by {
                    places_are_addresses(other, 0);
                    places_are_addresses(addr, 0);
                    assert(holds(before, other) <==> shorter.contains(other));
                    if shorter.contains(other) {
                        let at = choose|at: int| 0 <= at < shorter.len() && shorter[at] == other;
                        assert(longer[at] == other);
                    }
                    if other == addr {
                        assert(longer[index as int] == other);
                    }
                }
            }
            index += 1;
        }
        assert(sessions@.take(index as int) =~= sessions@);
        self.sessions = mask;
        self.dirty = true;
    }

    /// Says on the grid that the audio device has gone away.
    pub fn device_lost(&mut self, now: Nanos)
        requires
            now <= LONGEST,
        ensures
            final(self)@ == old(self)@.scrolls("NO AUDIO"@, now),
    {
        self.scroll(String::from_str("NO AUDIO"), now);
    }

    /// Freezes the transport without a press, for something the performer did not ask for.
    pub fn pause(&mut self)
        ensures
            final(self)@ == (if old(self)@.chrome.paused {
                old(self)@
            } else {
                old(self)@.toggles_paused()
            }),
    {
        if self.chrome.paused {
            return ;
        }
        self.toggle_paused();
    }

    /// Takes the tempo a loaded session came with.
    ///
    /// The engine took it from the load itself, so this only brings the display in step.
    pub fn set_loaded_tempo(&mut self, tempo: Tempo)
        ensures
            final(self)@ == old(self)@.takes_tempo(tempo),
    {
        self.tempo = tempo;
        self.tempo_before_request = tempo;
        self.dirty = true;
    }

    /// Takes the time signature a loaded session was recorded in.
    pub fn set_loaded_time_signature(&mut self, signature: TimeSignature)
        ensures
            final(self)@ == old(self)@.adopts_signature(signature),
    {
        self.adopt_signature(signature);
    }

    /// Records that a session was loaded, and leaves the picker.
    pub fn session_loaded(&mut self, addr: SlotAddr, paused: bool)
        ensures
            final(self)@ == (ControllerView { current: Some(addr), ..old(self)@ }).with_chrome(
                Chrome { paused, ..old(self)@.chrome },
            ).turns_to(Mode::Perform),
    {
        self.current = Some(addr);
        self.chrome.paused = paused;
        self.mode = Mode::Perform;
        self.dirty = true;
    }

    /// Records which session is in use, leaves the picker, and says so on the grid.
    pub fn session_saved(&mut self, addr: SlotAddr, now: Nanos)
        requires
            now <= LONGEST,
        ensures
            final(self)@ == (ControllerView {
                sessions: old(self)@.sessions | (1u64 << (addr.place() as u64)),
                current: Some(addr),
                mode: Mode::Perform,
                ..old(self)@
            }).shows(LedColor::Green, now, None),
    {
        self.sessions = self.sessions | pad_bit(addr);
        self.current = Some(addr);
        self.mode = Mode::Perform;
        self.show(LedColor::Green, now, None);
    }

    /// Leaves the picker and says on the grid that nothing was written.
    pub fn save_failed(&mut self, now: Nanos)
        requires
            now <= LONGEST,
        ensures
            final(self)@ == (ControllerView { mode: Mode::Perform, ..old(self)@ }).shows(
                LedColor::Red,
                now,
                None,
            ),
    {
        self.mode = Mode::Perform;
        self.show(LedColor::Red, now, None);
    }

    /// Leaves the picker and says on the grid that nothing was loaded.
    ///
    /// `code` is scrolled once the colour has been held, for a refusal with a number
    /// worth reading.
    pub fn load_failed(&mut self, now: Nanos, code: Option<String>)
        requires
            now <= LONGEST,
        ensures
            final(self)@ == old(self)@.fails_load(now, said(code)),
    {
        self.mode = Mode::Perform;
        self.show(LedColor::Red, now, code);
    }

    /// Takes a display change, if there is one.
    pub fn take_text(&mut self) -> (r: Option<TextUpdate>)
        ensures
            text_view(r) == old(self)@.text,
            final(self)@ == old(self)@.takes_text(),
    {
        match self.text.take() {
            Some(update) => {
                self.text_running = matches!(update, TextUpdate::Show(_));
                Some(update)
            },
            None => None,
        }
    }

    /// Takes everything the performer asked for, in order.
    pub fn drain_work(&mut self) -> (r: Vec<Work>)
        ensures
            r@ == old(self)@.work,
            final(self)@ == (ControllerView { work: Seq::empty(), ..old(self)@ }),
    {
        let mut work: Vec<Work> = Vec::new();
        core::mem::swap(&mut work, &mut self.work);
        assert(self@.work =~= Seq::empty());
        work
    }

    /// How long the beat indicator stays lit: half a beat.
    fn lit_for(&self) -> (r: Nanos)
        ensures
            r == lit_nanos(self@.tempo, self@.chrome.signature),
            r <= 8_000_000_000,
    {
        let units: u64 = self.tempo.to_units();
        let unit: u32 = self.chrome.signature.beat_unit();
        proof {
            half_beat_bounds(units as int);
        }
        let seconds: u128 = round_to_double(2 * MINUTE, units as u128);
        let n: u128 = seconds * 1_000_000_000;
        let d: u128 = unit as u128 * 0x1000_0000_0000_0000;
        let floor: u128 = n / d;
        let rest: u128 = n % d;
        proof {
            assert(d >= 0x1000_0000_0000_0000);
            vstd::arithmetic::div_mod::lemma_mod_bound(n as int, d as int);
            vstd::arithmetic::div_mod::lemma_div_is_ordered_by_denominator(
                n as int,
                0x1000_0000_0000_0000,
                d as int,
            );
            assert(n as int / 0x1000_0000_0000_0000 <= 7_000_000_000);
        }
        if 2 * rest < d {
            floor
        } else if 2 * rest > d {
            floor + 1
        } else {
            floor + floor % 2
        }
    }

    /// Handles something the engine reported.
    pub fn on_engine(&mut self, event: Event, now: Nanos)
        requires
            now <= LONGEST,
        ensures
            final(self)@ == old(self)@.takes_report(event, now),
    {
        match event {
            Event::SlotChanged { addr, state } => {
                self.session.mirror(addr, state);
                self.dirty = true;
            },
            Event::Beat { beat, .. } => {
                let lit: Nanos = self.lit_for();
                if beat != self.chrome.beat || !self.chrome.beat_lit {
                    self.chrome.beat = beat;
                    self.chrome.beat_lit = true;
                    self.dirty = true;
                }
                self.beat_off = Some(now + lit);
            },
            // The engine's own value wins, however the change was asked for.
            Event::TimeSignature { beats_per_bar, beat_unit } => {
                if let Ok(signature) = TimeSignature::new(beats_per_bar, beat_unit) {
                    self.adopt_signature(signature);
                }
            },
            Event::TimeSignatureRejected => {
                let confirmed: TimeSignature = self.confirmed_signature;
                self.show_signature_state(confirmed);
            },
            Event::TempoRejected => {
                self.tempo = self.tempo_before_request;
                // A number that has just been rolled back is worse than none.
                if self.text_until.is_some() {
                    self.text_until = None;
                    self.text = Some(TextUpdate::Stop);
                    self.dirty = true;
                }
            },
            // The engine's own value wins: the display may have been left optimistic by a
            // refusal that never arrived.
            Event::Tempo { bpm } => self.set_loaded_tempo(bpm),
            // A take with nowhere to go says so on the whole grid: the session is full,
            // not that pad.
            Event::RecordingRefused { .. } => self.show(LedColor::Red, now, None),
            // The same answer the store's own refusal gives.
            Event::LoadRefused { wanted, .. } => self.load_failed(
                now,
                Some(decimal(wanted as u64)),
            ),
            // Bars are already covered by the beat they start with, and the rest are for
            // logging rather than for the grid.
            _ => {},
        }
    }

    /// Handles something the performer did, at time `now` since the app started.
    ///
    /// What a button does is [`role`]'s answer for the screen showing, so a
    /// button with no part to play on it does nothing.
    pub fn on_surface(&mut self, event: SurfaceEvent, now: Nanos)
        requires
            now <= LONGEST,
        ensures
            final(self)@ == old(self)@.takes_gesture(event, now),
    {
        match event {
            SurfaceEvent::PadPressed { addr, .. } => self.press_pad(addr, now),
            SurfaceEvent::PadReleased { addr } => self.release_pad(addr),
            SurfaceEvent::ControlPressed(control) => self.press_button(Button::Top(control), now),
            SurfaceEvent::ControlReleased(control) => match control {
                Control::TempoDown => self.release_tempo(now),
                Control::TempoUp => self.release_tempo(now),
                Control::ClickToggle => self.release_click(),
                _ => {},
            },
            SurfaceEvent::SidePressed { index } => self.press_button(
                Button::Side(index as usize),
                now,
            ),
            SurfaceEvent::SideReleased { .. } => {},
        }
    }

    /// Acts on a grid pad, according to what it means on this screen.
    fn press_pad(&mut self, addr: SlotAddr, now: Nanos)
        requires
            now <= LONGEST,
        ensures
            final(self)@ == old(self)@.presses_pad(addr, now),
    {
        let beats: u32 = self.time_signature.beats_per_bar();
        let unit: u32 = self.time_signature.beat_unit();
        match role(self.mode, Button::Grid(addr)) {
            // Nothing yet: which gesture this is depends on how long it lasts.
            Role::Loop => {
                self.held[addr.index()] = Some(now);
            },
            Role::Answer => self.answer(addr),
            Role::SaveTo => self.press_save(addr),
            Role::LoadFrom => self.press_load(addr),
            Role::Group => self.toggle_group(addr),
            Role::Level => self.set_level(addr),
            Role::Pan => self.set_pan(addr),
            Role::InputChannel => self.press_input(addr),
            Role::Setting => self.toggle_setting(addr),
            Role::Beats(wanted) => {
                if let Ok(next) = TimeSignature::new(wanted, unit) {
                    self.press_time_signature(next, now);
                }
            },
            Role::Unit(wanted) => {
                proof {
                    common_units_are_powers();
                }
                if let Ok(next) = TimeSignature::new(beats, wanted) {
                    self.press_time_signature(next, now);
                }
            },
            Role::Rate(subdivision) => self.press_subdivision(subdivision, now),
            _ => {},
        }
    }

    fn release_pad(&mut self, addr: SlotAddr)
        ensures
            final(self)@ == old(self)@.releases_pad(addr),
    {
        if self.input_held == Some(addr) {
            self.input_held = None;
            return ;
        }
        // A hold that completed already emptied the pad and took its entry, so only a
        // release that still has one is a tap.
        let index: usize = addr.index();
        if self.held[index].is_some() {
            self.held[index] = None;
            self.command(Command::Press(addr));
        }
    }

    /// Acts on a top-row or side button, according to what it means on this screen.
    fn press_button(&mut self, button: Button, now: Nanos)
        requires
            now <= LONGEST,
            !(button is Grid),
        ensures
            final(self)@ == old(self)@.presses_button(button, now),
    {
        match role(self.mode, button) {
            Role::Transport => self.toggle_paused(),
            Role::Tempo(direction) => self.press_tempo(direction, now),
            Role::Click => self.press_click(now),
            Role::StopAll => self.command(Command::StopAll),
            Role::Rewind => self.command(Command::Rewind),
            Role::Axis => {
                self.chrome.axis = self.chrome.axis.flipped();
                self.dirty = true;
            },
            Role::NewSession => self.start_fresh(),
            Role::Open(mode) => self.set_mode(mode),
            _ => {},
        }
    }

    /// Advances anything that depends on time passing rather than on an event.
    ///
    /// Call every pass of the control loop, or a hold completes only when another event
    /// arrives.
    pub fn tick(&mut self, now: Nanos)
        requires
            now <= LONGEST,
        ensures
            final(self)@ == old(self)@.ticks(now),
    {
        self.repeat_tempo(now);
        self.open_click_page(now);
        self.end_timed(now);
        let ghost start = self@;
        proof {
            self.sized();
        }
        let mut warning: PadMask = 0;
        let mut index: usize = 0;
        while index < PAD_COUNT
            invariant
                index <= 64,
                start.held.len() == 64,
                self@.held.len() == 64,
                self@ == start.empties_pads(now, index as int),
                warning == warned(start.held, now, index as int),
                forall|i: int| index <= i < 64 ==> #[trigger] self@.held[i] == start.held[i],
            decreases 64 - index,
        {
            let addr: SlotAddr = SlotAddr::of_index(index);
            assert(self.held@[index as int] == start.held[index as int]);
            if let Some(since) = self.held[index] {
                let holding: Nanos = now.saturating_sub(since);
                if holding >= CLEAR_HOLD {
                    // Forget the hold rather than wait for the release, so it fires once and
                    // a pad still physically down does not empty again every pass.
                    self.held[index] = None;
                    self.command(Command::Clear(addr));
                } else if holding >= CLEAR_WARNING {
                    warning = warning | pad_bit(addr);
                }
            }
            index += 1;
        }
        proof {
            start.emptying_keeps_warning(now, 64);
        }
        if warning != self.warning {
            self.warning = warning;
            self.dirty = true;
        }
    }

    /// Ends the beat light, the colour over the grid and the text, each when its time has come.
    fn end_timed(&mut self, now: Nanos)
        requires
            now <= LONGEST,
        ensures
            final(self)@ == old(self)@.darkens_beat(now).ends_flash(now).ends_text(now),
            final(self)@.held == old(self)@.held,
    {
        if let Some(until) = self.beat_off {
            if now >= until {
                self.beat_off = None;
                self.chrome.beat_lit = false;
                self.dirty = true;
            }
        }
        let ghost dark = self@;
        assert(dark == old(self)@.darkens_beat(now));
        let due: bool = match &self.flash {
            Some(flash) => now >= flash.until,
            None => false,
        };
        if due {
            let ended: Option<Flash> = self.flash.take();
            self.dirty = true;
            if let Some(flash) = ended {
                if let Some(text) = flash.follow {
                    self.scroll(text, now);
                }
            }
        }
        assert(self@ == dark.ends_flash(now));
        if let Some(until) = self.text_until {
            if now >= until {
                self.text_until = None;
                self.text = Some(TextUpdate::Stop);
                self.dirty = true;
            }
        }
    }

    /// The page to paint, if anything changed since one was last taken. Whatever is waiting on
    /// the next press goes on top of it, by [`Controller::mark`].
    fn take_page(&mut self) -> (r: Option<Page>)
        ensures
            r == (if old(self)@.cuts_text().has_frame() {
                Some(old(self)@.page())
            } else {
                None
            }),
            final(self)@ == (if r is Some {
                old(self)@.cuts_text().painted()
            } else {
                old(self)@.cuts_text()
            }),
    {
        // Text on the grid holds a frame back, but not across a change of screen: the
        // buttons around the text keep offering what the screen behind it did, and they
        // would answer for a screen that is no longer showing.
        if self.text_running && self.painted != self.mode {
            self.text = Some(TextUpdate::Stop);
            self.text_until = None;
        }
        // A frame cuts off text that is on the grid. Queued text is not on it yet, so the
        // frame that goes with it still gets out.
        if !self.dirty || self.text_running {
            return None;
        }
        self.painted = self.mode;
        self.dirty = false;
        let page: Page = match self.mode {
            Mode::Volume => Page::Volumes,
            Mode::Pan => Page::Pans,
            Mode::Input => Page::Inputs,
            Mode::Settings => Page::Settings,
            Mode::TimeSignature => Page::TimeSignature,
            Mode::Subdivision => Page::Subdivisions,
            _ => if self.tempo_repeating() {
                // A number cannot track a tempo that is still moving, so the grid shows it
                // instead until the button is let go.
                Page::TempoGauge
            } else {
                match self.mode {
                    Mode::ConfirmSave(_) => Page::Confirm,
                    Mode::ConfirmLoad(_) => Page::Confirm,
                    Mode::SavePicker => Page::Picker(Control::SaveSession),
                    Mode::LoadPicker => Page::Picker(Control::LoadSession),
                    _ => Page::Loops,
                }
            },
        };
        Some(page)
    }
}

impl ControllerView {
    /// Emptying pads changes what is asked for and what is held, and nothing else.
    proof fn emptying_keeps_warning(self, now: Nanos, to: int)
        ensures
            self.empties_pads(now, to).warning == self.warning,
        decreases to,
    {
        if to > 0 {
            self.emptying_keeps_warning(now, to - 1);
        }
    }
}

/// Half a beat lasts at most six seconds, and a little more for rounding.
proof fn half_beat_bounds(units: int)
    requires
        MIN_UNITS <= units <= MAX_UNITS,
    ensures
        (2 * MINUTE) / units >= 0x10_0000_0000_0000,
        0 <= to_double(2 * MINUTE, units) < 0x6000_0000_0000_2000,
{
    vstd::arithmetic::div_mod::lemma_div_is_ordered_by_denominator(
        2 * MINUTE,
        units,
        MAX_UNITS as int,
    );
    vstd::arithmetic::div_mod::lemma_div_is_ordered_by_denominator(
        2 * MINUTE,
        MIN_UNITS as int,
        units,
    );
    assert((2 * MINUTE) / (MAX_UNITS as int) >= 0x10_0000_0000_0000);
    assert((2 * MINUTE) / (MIN_UNITS as int) == 0x6000_0000_0000_0000);
    rounding_is_close(2 * MINUTE, units);
}

impl Controller {
    /// Whether a button blinks, as the way out of the screen showing.
    fn is_exit(&self, button: Button) -> (r: bool)
        ensures
            r == waits(self@.mode, button),
    {
        let (first, second) = exits(self.mode);
        first == Some(button) || second == Some(button)
    }

    /// The light of a top-row button, over what the page shows there.
    fn top_led(&self, control: Control, page: Led) -> (r: Led)
        ensures
            r == top_light(self@, control, page),
    {
        if let Some(hold) = self.tempo_hold {
            if self.mode == hold.screen && hold.button == control {
                // Steady while pressed, blinking once it starts repeating, so the button
                // says which of the two is happening.
                return if self.tempo_repeating() {
                    Led::flash(LedColor::Yellow)
                } else {
                    Led::solid(LedColor::Yellow)
                };
            }
        }
        // Whatever it takes to leave, on whatever screen this is.
        if self.is_exit(Button::Top(control)) {
            return Led::flash(LedColor::Yellow);
        }
        // Shares a top button with a control, and the beat is worth seeing from anywhere.
        if control.index() == FIRST_BEAT_LED && self.chrome.beat_lit {
            return if self.chrome.beat == 0 {
                Led::solid(LedColor::Red)
            } else {
                Led::solid(LedColor::White)
            };
        }
        // A button with no part to play on this screen shows nothing, so there is no way
        // into another screen to reach for.
        if matches!(role(self.mode, Button::Top(control)), Role::Inert) {
            Led::off()
        } else {
            page
        }
    }

    /// Marks whatever is waiting on the next press.
    ///
    /// Applied to every screen, so a held button looks the same on any of them.
    fn mark(&self, frame: &mut LedFrame)
        requires
            old(frame)@.wf(),
        ensures
            final(frame)@ == marked(self@, old(frame)@),
    {
        let controls: [Control; 8] = Control::all();
        let mut index: usize = 0;
        while index < CONTROL_COUNT
            invariant
                index <= 8,
                forall|i: int| 0 <= i < 8 ==> (#[trigger] controls@[i]).place() == i,
                frame@.wf(),
                old(frame)@.wf(),
                frame@.pads == old(frame)@.pads,
                frame@.sides == old(frame)@.sides,
                forall|i: int|
                    0 <= i < 8 ==> #[trigger] frame@.controls[i] == (if i < index {
                        top_light(self@, control_at(i), old(frame)@.controls[i])
                    } else {
                        old(frame)@.controls[i]
                    }),
            decreases 8 - index,
        {
            let control: Control = controls[index];
            assert(control == control_at(index as int));
            let led: Led = self.top_led(control, frame.control(index));
            frame.set_control(index, led);
            index += 1;
        }
        let mut index: usize = 0;
        while index < SIDE_COUNT
            invariant
                index <= 8,
                frame@.wf(),
                old(frame)@.wf(),
                frame@.pads == old(frame)@.pads,
                forall|i: int|
                    0 <= i < 8 ==> #[trigger] frame@.controls[i] == top_light(
                        self@,
                        control_at(i),
                        old(frame)@.controls[i],
                    ),
                forall|i: int|
                    0 <= i < 8 ==> #[trigger] frame@.sides[i] == (if i < index {
                        side_light(self@, i, old(frame)@.sides[i])
                    } else {
                        old(frame)@.sides[i]
                    }),
            decreases 8 - index,
        {
            let button: Button = Button::Side(index);
            if self.is_exit(button) {
                frame.set_side(index, Led::flash(LedColor::Yellow));
            } else if matches!(role(self.mode, button), Role::Inert) {
                frame.set_side(index, Led::off());
            }
            index += 1;
        }
        let answer: Option<LedColor> = match &self.flash {
            Some(flash) => Some(flash.color),
            None => None,
        };
        let mut index: usize = 0;
        while index < PAD_COUNT
            invariant
                index <= 64,
                frame@.wf(),
                old(frame)@.wf(),
                answer == (match self@.flash {
                    Some(flash) => Some(flash.color),
                    None => None,
                }),
                forall|i: int|
                    0 <= i < 8 ==> #[trigger] frame@.controls[i] == top_light(
                        self@,
                        control_at(i),
                        old(frame)@.controls[i],
                    ),
                forall|i: int|
                    0 <= i < 8 ==> #[trigger] frame@.sides[i] == side_light(
                        self@,
                        i,
                        old(frame)@.sides[i],
                    ),
                forall|i: int|
                    0 <= i < 64 ==> #[trigger] frame@.pads[i] == (if i < index {
                        pad_light(self@, i, old(frame)@.pads[i])
                    } else {
                        old(frame)@.pads[i]
                    }),
            decreases 64 - index,
        {
            let addr: SlotAddr = SlotAddr::of_index(index);
            if let Some(color) = answer {
                frame.set_pad(addr, Led::solid(color));
            } else if self.warning & pad_bit(addr) != 0 {
                // A hold about to empty a pad says so before the audio disappears.
                frame.set_pad(addr, Led::flash(LedColor::White));
            }
            index += 1;
        }
        proof {
            let goal = marked(self@, old(frame)@);
            assert(frame@.pads =~= goal.pads);
            assert(frame@.controls =~= goal.controls);
            assert(frame@.sides =~= goal.sides);
        }
    }
}

/// The light of a pad on a page, before anything is marked on it.
pub open spec fn page_light(v: ControllerView, page: Page, place: int) -> Led {
    let addr = SlotAddr::at(place);
    let (track, column) = (place / 8, place % 8);
    match page {
        Page::Volumes => level_light(v.chrome.gains[track], column),
        Page::Pans => pan_light(v.chrome.pans[track], column),
        Page::Inputs => input_light(v.chrome.inputs[track], v.chrome.input_count, column),
        Page::Settings => setting_light(v.chrome, track, column),
        Page::TimeSignature => signature_light(v.chrome, addr),
        Page::Subdivisions => rate_light(v.chrome, addr),
        Page::TempoGauge => gauge_light(v.tempo, place),
        Page::Confirm => answer_light(place),
        Page::Picker(control) => session_light(
            v.sessions,
            v.current,
            picker_color(control),
            addr,
        ),
        Page::Loops => loop_light(v.session[place], hushed(v.chrome, addr)),
    }
}

/// A page, before anything is marked on it.
pub open spec fn pictured(v: ControllerView, page: Page) -> FrameView {
    FrameView {
        pads: Seq::new(64, |place: int| page_light(v, page, place)),
        controls: Seq::new(8, |place: int| control_light(control_at(place), v.chrome)),
        sides: Seq::new(8, |place: int| side_button_light(place, v.chrome)),
    }
}

impl Controller {
    fn page_led(&self, page: Page, place: usize) -> (r: Led)
        requires
            place < 64,
        ensures
            r == page_light(self@, page, place as int),
    {
        let addr: SlotAddr = SlotAddr::of_index(place);
        let track: usize = addr.track.index();
        let column: usize = addr.slot.index();
        match page {
            Page::Volumes => level_led(self.chrome.gains[track], column),
            Page::Pans => pan_led(self.chrome.pans[track], column),
            Page::Inputs => input_led(
                self.chrome.inputs[track],
                self.chrome.input_count,
                column as u8,
            ),
            Page::Settings => setting_led(&self.chrome, track, column),
            Page::TimeSignature => signature_led(&self.chrome, addr),
            Page::Subdivisions => rate_led(&self.chrome, addr),
            Page::TempoGauge => gauge_led(self.tempo, place),
            Page::Confirm => answer_led(place),
            Page::Picker(control) => session_led(self.sessions, self.current, control, addr),
            Page::Loops => loop_led(self.session.state(addr), &self.chrome, addr),
        }
    }

    /// A page, before anything is marked on it.
    fn paint(&self, page: Page) -> (r: LedFrame)
        ensures
            r@ == pictured(self@, page),
            r@.wf(),
    {
        let mut frame: LedFrame = LedFrame::dark();
        let mut index: usize = 0;
        while index < PAD_COUNT
            invariant
                index <= 64,
                frame@.wf(),
                forall|i: int|
                    0 <= i < index ==> #[trigger] frame@.pads[i] == page_light(self@, page, i),
            decreases 64 - index,
        {
            frame.set_pad(SlotAddr::of_index(index), self.page_led(page, index));
            index += 1;
        }
        let controls: [Control; 8] = Control::all();
        let mut index: usize = 0;
        while index < CONTROL_COUNT
            invariant
                index <= 8,
                frame@.wf(),
                forall|i: int| 0 <= i < 8 ==> (#[trigger] controls@[i]).place() == i,
                forall|i: int|
                    0 <= i < 64 ==> #[trigger] frame@.pads[i] == page_light(self@, page, i),
                forall|i: int|
                    0 <= i < index ==> #[trigger] frame@.controls[i] == control_light(
                        control_at(i),
                        self@.chrome,
                    ),
            decreases 8 - index,
        {
            let control: Control = controls[index];
            assert(control == control_at(index as int));
            frame.set_control(index, control_led(control, &self.chrome));
            index += 1;
        }
        let mut index: usize = 0;
        while index < SIDE_COUNT
            invariant
                index <= 8,
                frame@.wf(),
                forall|i: int|
                    0 <= i < 64 ==> #[trigger] frame@.pads[i] == page_light(self@, page, i),
                forall|i: int|
                    0 <= i < 8 ==> #[trigger] frame@.controls[i] == control_light(
                        control_at(i),
                        self@.chrome,
                    ),
                forall|i: int|
                    0 <= i < index ==> #[trigger] frame@.sides[i] == side_button_light(
                        i,
                        self@.chrome,
                    ),
            decreases 8 - index,
        {
            frame.set_side(index, side_button_led(index, &self.chrome));
            index += 1;
        }
        proof {
            let goal = pictured(self@, page);
            assert(frame@.pads =~= goal.pads);
            assert(frame@.controls =~= goal.controls);
            assert(frame@.sides =~= goal.sides);
        }
        frame
    }

    /// The frame to show, if anything changed since one was last taken. Text on the grid holds
    /// it back.
    pub fn take_frame(&mut self) -> (r: Option<LedFrame>)
        ensures
            r is Some <==> old(self)@.cuts_text().has_frame(),
            r is Some ==> final(self)@ == old(self)@.cuts_text().painted(),
            r is Some ==> r->Some_0@ == marked(
                final(self)@,
                pictured(final(self)@, old(self)@.page()),
            ),
            r is None ==> final(self)@ == old(self)@.cuts_text(),
    {
        match self.take_page() {
            Some(page) => {
                let mut frame: LedFrame = self.paint(page);
                self.mark(&mut frame);
                Some(frame)
            },
            None => None,
        }
    }
}

} // verus!
