//! What the engine holds and how it moves, as mathematical values.
//!
//! Where a clip is being read by another thread, or a queue to another thread is full, the
//! engine does less. Neither can be known, so those moves are relations: they hold of every
//! outcome. What was found out each time is kept with what the engine holds, and each move is
//! held to it.

use vstd::prelude::*;

use crate::audio::{
    abandoned, asking, captures, lets_go, plus, receives, reclaims, staged_cost, verdict, worked,
    AudioView, Recording,
};
use crate::chain::{chained, Step};
use crate::click::{Click, Tone};
use crate::clip::ClipView;
use crate::command::Command;
use crate::event::Event;
use crate::grid::{bar_length, cut_at, cut_offset, BarGrid, Subdivision};
use crate::ids::{holds_place, ClipId, PadMask, SlotAddr};
use crate::load::{LoadMessage, SLOTS};
use crate::session::{
    always, answered, busy_elsewhere, cancelling, moved, retargeted, swept, tagged, Work,
};
use crate::settings::Settings;
use crate::slot::{advanced, can_press, cleared, stopped, Ctx, SlotInput, SlotState};
use crate::snapshot::Snapshot;
use crate::time::{Frames, SampleRate, Tempo, TimeSignature};

verus! {

/// A transport move that waits for the mix to fade out.
#[derive(Debug, Clone, Copy, PartialEq, Eq, Structural)]
pub enum Deferred {
    /// Back to the start.
    Rewind,
    /// Freeze.
    Pause,
    /// Empty every pad and start over.
    ClearAll,
}

/// What the engine holds.
#[verifier::ext_equal]
pub struct EngineView<S> {
    /// The bar grid.
    pub grid: BarGrid,
    /// The transport position.
    pub position: Frames,
    /// What every pad is doing, track by track.
    pub session: Seq<SlotState>,
    /// Everything that owns audio memory.
    pub audio: AudioView<S>,
    /// The click.
    pub click: Click,
    /// How often the click sounds.
    pub subdivision: Subdivision,
    /// Every step of a load taken in so far.
    pub received: Seq<LoadMessage<S>>,
    /// How often no further step of a load was waiting.
    pub idle: int,
    /// Channels of the output.
    pub channels: int,
    /// Channels of the input.
    pub capture_channels: int,
    /// Whether the transport is frozen.
    pub paused: bool,
    /// Pads that do not sound.
    pub muted: PadMask,
    /// Pads that sound to the exclusion of the rest.
    pub soloed: PadMask,
    /// How loud each track plays, as a step on the gain ladder.
    pub gains: Seq<u8>,
    /// Frames a level takes to travel the full gain range.
    pub declick: int,
    /// A transport move waiting for the mix to fade out.
    pub pending: Option<Deferred>,
    /// The last position a beat fired on.
    pub last_boundary: Option<Frames>,
    /// The clock count the transport position last stood at.
    pub last_clock: u64,
    /// MIDI clock ticks reported so far.
    pub clock_total: u64,
    /// The sample rate.
    pub sample_rate: SampleRate,
    /// The time signature.
    pub time_signature: TimeSignature,
    /// Whether the mix was cut to silence and the levels have not been told yet.
    pub silenced: bool,
}

impl<S> EngineView<S> {
    /// The parts agree: the audio half measures by the grid, and no refusal is left over.
    pub open spec fn wf(self) -> bool {
        &&& self.audio.wf()
        &&& self.grid.wf()
        &&& self.session.len() == 64
        &&& self.gains.len() == 8
        &&& self.channels > 0
        &&& self.capture_channels > 0
        &&& self.audio.refused == 0
        &&& self.measured()
    }

    /// The audio half measures by the grid.
    pub open spec fn measured(self) -> bool {
        &&& self.audio.bar_frames == self.grid.bar()
        &&& self.audio.tail_frames == tail_length(self.grid)
        &&& self.time_signature == self.grid.signature_at()
    }

    /// What a slot is stepped with.
    pub open spec fn moment(self) -> Ctx {
        Ctx { now: self.position, grid: self.grid, next_clip_id: self.audio.next_clip_id }
    }

    /// Whether a pad would be heard if it were playing: it is not muted, and where anything is
    /// soloed it is too.
    pub open spec fn audible(self, place: int) -> bool {
        !holds_place(self.muted, place) && (self.soloed == 0 || holds_place(self.soloed, place))
    }

    /// Whether a clip anywhere locks the tempo. A clear already committed takes every clip with
    /// it, so it locks nothing.
    pub open spec fn locked(self) -> bool {
        self.pending != Some(Deferred::ClearAll) && exists|place: int|
            0 <= place < 64 && (#[trigger] self.session[place]).held() is Some
    }
}

/// Capture kept past a loop: every beat of the bar after it but the last.
pub open spec fn tail_length(grid: BarGrid) -> int {
    cut_offset(grid.bar(), grid.beats() - 1, grid.beats())
}

/// The clock count at a position, held to what can be counted.
pub open spec fn clock_at(grid: BarGrid, position: int) -> u64 {
    if grid.ticks(position) <= u64::MAX {
        grid.ticks(position) as u64
    } else {
        u64::MAX
    }
}

/// The anchor a clip recorded from the transport's start would hold. Frame zero was captured
/// `offset` after the beat it belongs to, so the anchor sits that far back.
pub open spec fn start_anchor(len: int, offset: int) -> int {
    if len == 0 {
        0
    } else {
        (len - offset % len) % len
    }
}

/// The pads before a place whose state differs, each with its new state, in order.
pub open spec fn changes(before: Seq<SlotState>, after: Seq<SlotState>, to: int) -> Seq<Event>
    decreases to,
{
    if to <= 0 {
        Seq::empty()
    } else if before[to - 1] != after[to - 1] {
        changes(before, after, to - 1).push(
            Event::SlotChanged { addr: SlotAddr::at(to - 1), state: after[to - 1] },
        )
    } else {
        changes(before, after, to - 1)
    }
}

/// Every pad's state, in order.
pub open spec fn every_state(states: Seq<SlotState>) -> Seq<Event> {
    Seq::new(
        64,
        |place: int| Event::SlotChanged { addr: SlotAddr::at(place), state: states[place] },
    )
}

/// What signature the transport is running at.
pub open spec fn signature_report(grid: BarGrid) -> Event {
    Event::TimeSignature {
        beats_per_bar: grid.signature_at().beats() as u32,
        beat_unit: grid.signature_at().unit() as u32,
    }
}

/// The pads move to new states, and the work that calls for is carried out.
pub open spec fn session_moves<S>(
    v: EngineView<S>,
    states: Seq<SlotState>,
    work: Work,
    w: EngineView<S>,
    events: Seq<Event>,
) -> bool {
    w == (EngineView { session: states, audio: w.audio, ..v }) && worked(
        v.audio,
        work,
        w.audio,
        events,
    )
}

/// Every take in progress is discarded.
pub open spec fn cancels<S>(v: EngineView<S>, w: EngineView<S>, events: Seq<Event>) -> bool {
    session_moves(
        v,
        moved(v.session, cancelling(), v.moment(), 0, 64),
        swept(v.session, cancelling(), v.moment(), 0, 64),
        w,
        events,
    )
}

/// The place of the longest loop among the pads before a place: the first, where several are as
/// long. Below zero where there is none.
pub open spec fn longest<S>(clips: Seq<Option<ClipView<S>>>, to: int) -> int
    decreases to,
{
    if to <= 0 {
        -1
    } else {
        let best = longest(clips, to - 1);
        match clips[to - 1] {
            Some(clip) if clip.len > 0 && (best < 0 || clip.len > clips[best]->Some_0.len) => to
                - 1,
            _ => best,
        }
    }
}

/// Where a pad's clip is anchored: where it was launched, while it sounds, or where it was
/// recorded.
pub open spec fn anchored_at<S>(v: AudioView<S>, states: Seq<SlotState>, place: int) -> int {
    match v.anchors[place] {
        Some(anchor) if states[place].sounding() => anchor.0 as int,
        _ => v.clips[place]->Some_0.recorded_at,
    }
}

/// How far back every anchor moves when the transport goes back to the start: by the position of
/// the beat the longest loop begins on, which was captured a round trip after the anchor.
pub open spec fn rewind_shift<S>(v: AudioView<S>, states: Seq<SlotState>) -> int {
    let place = longest(v.clips, 64);
    if place < 0 {
        0
    } else {
        anchored_at(v, states, place) + v.clips[place]->Some_0.capture_offset
    }
}

/// An anchor moved back, kept within one pass of the loop.
pub open spec fn moved_back(anchor: int, len: int, by: int) -> int {
    if len > 0 {
        (anchor - by) % len
    } else {
        0
    }
}

/// A clip whose anchor moves back, where nobody else is reading it. One that somebody reads keeps
/// its old anchor.
pub open spec fn rewound<S>(clip: Option<ClipView<S>>, by: int, alone: bool) -> Option<
    ClipView<S>,
> {
    match clip {
        Some(clip) if alone => Some(
            ClipView { recorded_at: moved_back(clip.recorded_at, clip.len, by), ..clip },
        ),
        _ => clip,
    }
}

/// Where a launch put a pad's clip, moved back. A pad that is not sounding takes a fresh anchor
/// when it is next launched.
pub open spec fn rewound_anchor<S>(
    clip: Option<ClipView<S>>,
    anchor: Option<Frames>,
    state: SlotState,
    by: int,
) -> Option<Frames> {
    match (clip, anchor) {
        (Some(clip), Some(at)) if state.sounding() => Some(
            Frames(moved_back(at.0 as int, clip.len, by) as u64),
        ),
        _ => None,
    }
}

/// The answers for the clips of the pads before a place, in order.
pub open spec fn answers<S>(clips: Seq<Option<ClipView<S>>>, alone: Seq<bool>, to: int) -> Seq<bool>
    decreases to,
{
    if to <= 0 {
        Seq::empty()
    } else if clips[to - 1] is Some {
        answers(clips, alone, to - 1).push(alone[to - 1])
    } else {
        answers(clips, alone, to - 1)
    }
}

/// The clips as seen from the transport's start: every anchor moves back by the same amount,
/// which keeps the loops where they were against each other. `alone` says of each pad whether
/// nobody else was found to be reading its clip, which rests with the other threads.
pub open spec fn clips_rewound<S>(
    v: AudioView<S>,
    states: Seq<SlotState>,
    alone: Seq<bool>,
    w: AudioView<S>,
) -> bool {
    let by = rewind_shift(v, states);
    w == (AudioView {
        asked: v.asked + answers(v.clips, alone, 64),
        clips: Seq::new(64, |place: int| rewound(v.clips[place], by, alone[place])),
        anchors: Seq::new(
            64,
            |place: int| rewound_anchor(v.clips[place], v.anchors[place], states[place], by),
        ),
        ..v
    })
}

/// The transport goes back to the start, with the longest loop at its beginning and every other
/// loop where it was against it. Takes in progress are discarded, and what waits on a bar line
/// waits on the first one.
pub open spec fn rewinds<S>(v: EngineView<S>, w: EngineView<S>, events: Seq<Event>) -> bool {
    exists|mid: EngineView<S>, alone: Seq<bool>|
        #![trigger cancels(v, mid, events), clips_rewound(mid.audio, w.session, alone, w.audio)]
        cancels(v, mid, events) && w == (EngineView {
            position: Frames(0),
            last_boundary: None,
            last_clock: clock_at(v.grid, 0),
            session: mid.session.map_values(|state: SlotState| retargeted(state, Frames(0))),
            audio: w.audio,
            ..mid
        }) && clips_rewound(mid.audio, w.session, alone, w.audio)
}

/// Every pad is emptied and the transport starts over.
pub open spec fn clears<S>(v: EngineView<S>, w: EngineView<S>, events: Seq<Event>) -> bool {
    exists|mid: EngineView<S>, first: Seq<Event>, second: Seq<Event>|
        session_moves(
            v,
            Seq::new(64, |i: int| SlotState::Empty),
            swept(v.session, always(SlotInput::Clear), v.moment(), 0, 64),
            mid,
            first,
        ) && #[trigger] rewinds(mid, w, second) && events == #[trigger] (first + second)
}

/// A move whose fade has finished. The mix is silent afterwards.
pub open spec fn performs<S>(
    v: EngineView<S>,
    action: Deferred,
    w: EngineView<S>,
    events: Seq<Event>,
) -> bool {
    let moved = EngineView { silenced: v.silenced, ..w };
    w.silenced && match action {
        Deferred::Rewind => rewinds(v, moved, events),
        Deferred::ClearAll => clears(v, moved, events),
        Deferred::Pause => cancels(EngineView { paused: true, ..v }, moved, events),
    }
}

/// A transport move queued behind a fade. With no fade it lands at once.
pub open spec fn defers<S>(
    v: EngineView<S>,
    action: Deferred,
    w: EngineView<S>,
    events: Seq<Event>,
) -> bool {
    if v.declick == 0 {
        performs(v, action, w, events)
    } else {
        w == (EngineView { pending: Some(action), ..v }) && events == Seq::<Event>::empty()
    }
}

/// Freezing waits for a fade, and is asked for once. Resuming takes back a freeze that has not
/// landed yet.
pub open spec fn sets_paused<S>(
    v: EngineView<S>,
    paused: bool,
    w: EngineView<S>,
    events: Seq<Event>,
) -> bool {
    if !paused {
        w == (EngineView {
            pending: if v.pending == Some(Deferred::Pause) {
                None
            } else {
                v.pending
            },
            paused: false,
            ..v
        }) && events == Seq::<Event>::empty()
    } else if v.paused || v.pending == Some(Deferred::Pause) {
        w == v && events == Seq::<Event>::empty()
    } else {
        defers(v, Deferred::Pause, w, events)
    }
}

/// Whether a grid is the one some musical time gives.
pub open spec fn measures(
    grid: BarGrid,
    rate: SampleRate,
    tempo: Tempo,
    signature: TimeSignature,
) -> bool {
    grid.wf() && grid.rate_at() == rate && grid.tempo_at() == tempo && grid.signature_at()
        == signature
}

/// Whether a bar of some musical time can be measured.
pub open spec fn measurable(rate: SampleRate, tempo: Tempo, signature: TimeSignature) -> bool {
    1 <= bar_length(rate.rate(), tempo.units(), signature.beats(), signature.unit()) <= u32::MAX
}

/// A new bar grid, with the transport moved to the same musical place and everything measured
/// by the grid kept in step.
pub open spec fn regridded<S>(v: EngineView<S>, grid: BarGrid) -> EngineView<S> {
    let position = v.grid.rebased(v.position.0 as int, grid);
    EngineView {
        grid,
        time_signature: grid.signature_at(),
        position: Frames(position as u64),
        audio: AudioView {
            bar_frames: grid.bar() as u64,
            tail_frames: tail_length(grid) as u64,
            ..v.audio
        },
        last_clock: clock_at(grid, position),
        ..v
    }
}

/// Changing the musical time: refused where a clip locks it or the bar cannot be measured.
pub open spec fn retimes<S>(
    v: EngineView<S>,
    tempo: Tempo,
    signature: TimeSignature,
    taken: Event,
    refused: Event,
    w: EngineView<S>,
    events: Seq<Event>,
) -> bool {
    if v.locked() || !measurable(v.sample_rate, tempo, signature) {
        w == v && events == seq![refused]
    } else {
        exists|grid: BarGrid|
            #[trigger] measures(grid, v.sample_rate, tempo, signature) && w == regridded(v, grid)
                && events == seq![taken]
    }
}

/// Whether the position a change of musical time moves the transport to can be counted.
pub open spec fn can_retime<S>(v: EngineView<S>, tempo: Tempo, signature: TimeSignature) -> bool {
    forall|grid: BarGrid| #[trigger]
        measures(grid, v.sample_rate, tempo, signature) ==> v.grid.rebased(
            v.position.0 as int,
            grid,
        ) <= u64::MAX
}

/// A pad's clip is given the tail its recording captured, and the recording ends. Where somebody
/// else was found to be reading the clip, which rests with the other threads, both are kept.
pub open spec fn tail_settles<S>(
    v: AudioView<S>,
    place: int,
    alone: bool,
    w: AudioView<S>,
) -> bool {
    match (v.recordings[place], v.clips[place]) {
        (Some(recording), Some(clip)) if recording.tail_until is Some => w == (if alone {
            AudioView {
                clips: v.clips.update(
                    place,
                    Some(ClipView { tail: recording.tail_written as int, ..clip }),
                ),
                recordings: v.recordings.update(place, None),
                ..asking(v, true)
            }
        } else {
            asking(v, false)
        }),
        _ => w == v,
    }
}

/// Whether a snapshot shows a pad as it is.
pub open spec fn shows<S>(
    snapshot: Snapshot<S>,
    request: u32,
    place: int,
    session: Seq<SlotState>,
    audio: AudioView<S>,
) -> bool {
    &&& snapshot.request == request
    &&& snapshot.addr == SlotAddr::at(place)
    &&& snapshot.state == session[place]
    &&& snapshot.launch_anchor == audio.anchors[place]
    &&& audio.clips[place] == Some(snapshot.clip@)
}

/// How far a snapshot has come.
#[verifier::ext_equal]
pub struct Publishing<S> {
    /// The audio half.
    pub audio: AudioView<S>,
    /// Pads published.
    pub published: int,
    /// Pads there were to publish.
    pub expected: int,
}

/// One pad of a snapshot: its tail is ended, and it is published if it holds finished audio.
/// Whether it fits rests with the reader.
pub open spec fn publish_step<S>(request: u32, session: Seq<SlotState>) -> Step<Publishing<S>> {
    |from: Publishing<S>, place: int, to: Publishing<S>, events: Seq<Event>|
        events == Seq::<Event>::empty() && exists|mid: AudioView<S>, alone: bool|
            #[trigger] tail_settles(from.audio, place, alone, mid) && publishes_pad(
                Publishing { audio: mid, ..from },
                request,
                session,
                place,
                to,
            )
}

/// One pad of a snapshot, once its tail is ended.
pub open spec fn publishes_pad<S>(
    from: Publishing<S>,
    request: u32,
    session: Seq<SlotState>,
    place: int,
    to: Publishing<S>,
) -> bool {
    if session[place].recording() || from.audio.clips[place] is None {
        to == from
    } else {
        ||| to == (Publishing {
            audio: AudioView { published: to.audio.published, ..from.audio },
            published: from.published + 1,
            expected: from.expected + 1,
        }) && to.audio.published.len() == from.audio.published.len() + 1
            && to.audio.published.drop_last() == from.audio.published && shows(
            to.audio.published.last(),
            request,
            place,
            session,
            from.audio,
        )
        ||| to == (Publishing {
            audio: AudioView { lost: plus(from.audio.lost, 1), ..from.audio },
            published: from.published,
            expected: from.expected + 1,
        })
    }
}

/// A reference to every pad that holds a clip is published.
pub open spec fn snapshots<S>(
    v: EngineView<S>,
    request: u32,
    w: EngineView<S>,
    events: Seq<Event>,
) -> bool {
    exists|published: int, expected: int|
        w == (EngineView { audio: w.audio, ..v }) && chained(
            publish_step(request, v.session),
            Publishing { audio: v.audio, published: 0, expected: 0 },
            64,
            Publishing { audio: w.audio, published, expected },
            Seq::empty(),
        ) && events == #[trigger] completion(request, published, expected)
}

/// The report that a snapshot is complete.
pub open spec fn completion(request: u32, published: int, expected: int) -> Seq<Event> {
    seq![
        Event::SnapshotComplete { request, clips: published as u32, expected: expected as u32 },
    ]
}

/// The whole of the track settings, taken at once.
pub open spec fn with_settings<S>(v: EngineView<S>, settings: Settings) -> EngineView<S> {
    EngineView {
        gains: settings.gains@,
        muted: settings.muted,
        soloed: settings.soloed,
        audio: AudioView {
            inputs: settings.inputs@,
            launch_modes: settings.launch_modes@,
            pickups: settings.pickups@,
            ..v.audio
        },
        ..v
    }
}

/// What an instruction does, before the pads' changes are reported.
pub open spec fn commanded<S>(
    v: EngineView<S>,
    command: Command,
    w: EngineView<S>,
    events: Seq<Event>,
) -> bool {
    let none = Seq::<Event>::empty();
    match command {
        Command::Press(addr) => events == none && w == (EngineView {
            session: answered(v.session, addr, v.moment()),
            ..v
        }),
        Command::Clear(addr) => session_moves(
            v,
            v.session.update(addr.place(), SlotState::Empty),
            tagged(addr, cleared(v.session[addr.place()], v.position)),
            w,
            events,
        ),
        Command::StopTrack(track) => session_moves(
            v,
            Seq::new(
                64,
                |place: int|
                    if place / 8 == track.num() {
                        stopped(v.session[place])
                    } else {
                        v.session[place]
                    },
            ),
            swept(
                v.session,
                always(SlotInput::Stop),
                v.moment(),
                track.num() * 8,
                track.num() * 8 + 8,
            ),
            w,
            events,
        ),
        Command::StopAll => session_moves(
            v,
            v.session.map_values(|state: SlotState| stopped(state)),
            swept(v.session, always(SlotInput::Stop), v.moment(), 0, 64),
            w,
            events,
        ),
        Command::ClearAll => defers(v, Deferred::ClearAll, w, events),
        Command::Rewind => defers(v, Deferred::Rewind, w, events),
        Command::Resync => w == v && events == seq![
            Event::Tempo { bpm: v.grid.tempo_at() },
            signature_report(v.grid),
        ] + every_state(v.session),
        Command::Snapshot { request } => snapshots(v, request, w, events),
        Command::SetPaused(paused) => sets_paused(v, paused, w, events),
        Command::SetClickEnabled(enabled) => events == none && w == (EngineView {
            click: v.click.switched(enabled),
            ..v
        }),
        Command::SetClickLevel(level) => events == none && w == (EngineView {
            click: v.click.turned(level),
            ..v
        }),
        Command::SetClickSubdivision(subdivision) => events == none && w == (EngineView {
            subdivision,
            ..v
        }),
        Command::SetTempo(tempo) => retimes(
            v,
            tempo,
            v.time_signature,
            Event::Tempo { bpm: tempo },
            Event::TempoRejected,
            w,
            events,
        ),
        Command::SetTimeSignature(signature) => retimes(
            v,
            v.grid.tempo_at(),
            signature,
            Event::TimeSignature {
                beats_per_bar: signature.beats() as u32,
                beat_unit: signature.unit() as u32,
            },
            Event::TimeSignatureRejected,
            w,
            events,
        ),
        Command::SetSettings(settings) => events == none && w == with_settings(v, settings),
    }
}

/// What an instruction does: its own effect, then a report of every pad that changed.
pub open spec fn handled<S>(
    v: EngineView<S>,
    command: Command,
    w: EngineView<S>,
    events: Seq<Event>,
) -> bool {
    exists|first: Seq<Event>| #[trigger]
        commanded(v, command, w, first) && events == first + changes(v.session, w.session, 64)
}

/// Whether everything an instruction schedules can be counted.
pub open spec fn can_handle<S>(v: EngineView<S>, command: Command) -> bool {
    match command {
        Command::Press(addr) => busy_elsewhere(v.session, addr) || can_press(
            v.session[addr.place()],
            v.moment(),
        ),
        Command::SetTempo(tempo) => v.locked() || can_retime(v, tempo, v.time_signature),
        Command::SetTimeSignature(signature) => v.locked() || can_retime(
            v,
            v.grid.tempo_at(),
            signature,
        ),
        _ => true,
    }
}

/// One pad of settling refusals: a pad that was armed but could not be given storage is
/// emptied, and reported.
pub open spec fn refusal_step<S>(refused: PadMask) -> Step<EngineView<S>> {
    |v: EngineView<S>, place: int, w: EngineView<S>, events: Seq<Event>|
        if holds_place(refused, place) {
            exists|first: Seq<Event>|
                #[trigger] session_moves(
                    v,
                    v.session.update(place, SlotState::Empty),
                    tagged(SlotAddr::at(place), cleared(v.session[place], v.position)),
                    w,
                    first,
                ) && events == first.push(Event::RecordingRefused { addr: SlotAddr::at(place) })
        } else {
            w == v && events == Seq::<Event>::empty()
        }
}

/// Every pad that was armed but could not be given storage is emptied, and reported.
pub open spec fn refusals_settle<S>(v: EngineView<S>, w: EngineView<S>, events: Seq<Event>) -> bool {
    chained(
        refusal_step(v.audio.refused),
        EngineView { audio: AudioView { refused: 0, ..v.audio }, ..v },
        64,
        w,
        events,
    )
}

/// The report of the beat the transport is on, and of the bar where it is the first.
pub open spec fn beat_report(grid: BarGrid, position: int) -> Seq<Event> {
    let bar = (position / grid.bar()) as u64;
    let beat = cut_at(grid.bar(), position % grid.bar(), grid.beats()) as u32;
    if beat == 0 {
        seq![Event::Bar { bar }, Event::Beat { bar, beat }]
    } else {
        seq![Event::Beat { bar, beat }]
    }
}

/// Whether the transport is on a beat that has not fired yet.
pub open spec fn on_new_beat<S>(v: EngineView<S>) -> bool {
    v.grid.is_cut(v.position.0 as int, v.grid.beats()) && v.last_boundary != Some(v.position)
}

/// Everything scheduled for the exact frame the transport has reached fires, once.
pub open spec fn reaches_boundary<S>(
    v: EngineView<S>,
    w: EngineView<S>,
    events: Seq<Event>,
) -> bool {
    if !on_new_beat(v) {
        w == v && events == Seq::<Event>::empty()
    } else {
        exists|mid: EngineView<S>, first: Seq<Event>, second: Seq<Event>|
            #[trigger] advances(v, mid, first) && #[trigger] refusals_settle(mid, w, second)
                && events == beat_report(v.grid, v.position.0 as int) + first + second + changes(
                v.session,
                w.session,
                64,
            )
    }
}

/// Every transition due at the transport's position fires.
pub open spec fn advances<S>(v: EngineView<S>, w: EngineView<S>, events: Seq<Event>) -> bool {
    session_moves(
        EngineView { last_boundary: Some(v.position), ..v },
        v.session.map_values(|state: SlotState| advanced(state, v.moment()).0),
        swept(v.session, always(SlotInput::Advance), v.moment(), 0, 64),
        w,
        events,
    )
}

/// Clicks a bar is cut into.
pub open spec fn clicks<S>(v: EngineView<S>) -> int {
    v.subdivision.clicks(v.grid.signature_at())
}

/// The blip that sounds at the transport's position, if one does.
pub open spec fn tone_at<S>(v: EngineView<S>) -> Option<Tone> {
    let position = v.position.0 as int;
    let beat = cut_at(v.grid.bar(), position % v.grid.bar(), v.grid.beats());
    if !v.grid.is_cut(position, clicks(v)) {
        None
    } else if !v.grid.is_cut(position, v.grid.beats()) {
        Some(Tone::Sub)
    } else if beat == 0 {
        Some(Tone::Accent)
    } else {
        Some(Tone::Beat)
    }
}

/// The next frame anything is scheduled for: the next beat or the next click.
pub open spec fn run_end<S>(v: EngineView<S>) -> int {
    let beat = v.grid.cut_after(v.position.0 as int, v.grid.beats());
    let click = v.grid.cut_after(v.position.0 as int, clicks(v));
    if beat <= click {
        beat
    } else {
        click
    }
}

/// A run of frames with nothing scheduled inside it.
#[derive(Debug, Clone, Copy, PartialEq, Eq, Structural)]
pub struct Run {
    /// How many frames it has.
    pub frames: usize,
    /// The blip that starts with it, if one does.
    pub tone: Option<Tone>,
}

/// Starting a run: what is due fires, and the click sounds if it is due and on.
pub open spec fn starts_run<S>(
    v: EngineView<S>,
    left: int,
    w: EngineView<S>,
    events: Seq<Event>,
    run: Run,
) -> bool {
    let ahead = run_end(v) - v.position.0;
    &&& reaches_boundary(v, EngineView { click: v.click, ..w }, events)
    &&& w.click == (match tone_at(v) {
        Some(tone) => v.click.struck(tone),
        None => v.click,
    })
    &&& run.tone == (if v.click.on() {
        tone_at(v)
    } else {
        None
    })
    &&& run.frames == (if ahead < left {
        ahead
    } else {
        left
    })
}

/// How far capturing a run has come.
#[verifier::ext_equal]
pub struct Capturing<S> {
    /// The audio half.
    pub audio: AudioView<S>,
    /// Pads whose tail is complete.
    pub tailed: PadMask,
    /// Pads whose take has to end, because storage has run out.
    pub out: PadMask,
}

/// A set of pads with one more.
pub open spec fn with_pad(mask: PadMask, place: int) -> PadMask {
    mask | (1u64 << (place as u64))
}

/// One pad of capturing a run.
pub open spec fn capture_step<S>(captured: Seq<S>, src_channels: int, run: int) -> Step<
    Capturing<S>,
> {
    |from: Capturing<S>, place: int, to: Capturing<S>, events: Seq<Event>|
        exists|alone: bool, backed: int|
            #[trigger] captures(
                from.audio,
                place,
                captured,
                src_channels,
                run,
                alone,
                to.audio,
                backed,
            ) && {
                let made = verdict(from.audio.recordings[place], run, backed);
                &&& to.tailed == (if made.tailed {
                    with_pad(from.tailed, place)
                } else {
                    from.tailed
                })
                &&& to.out == (if made.out_of_room {
                    with_pad(from.out, place)
                } else {
                    from.out
                })
                &&& events == (if made.low {
                    seq![Event::RecordBufferLow { addr: SlotAddr::at(place) }]
                } else {
                    Seq::<Event>::empty()
                })
            }
}

/// One pad of ending the recordings whose tail is complete.
pub open spec fn tail_step<S>(tailed: PadMask) -> Step<AudioView<S>> {
    |from: AudioView<S>, place: int, to: AudioView<S>, events: Seq<Event>|
        events == Seq::<Event>::empty() && if holds_place(tailed, place) {
            exists|alone: bool| tail_settles(from, place, alone, to)
        } else {
            to == from
        }
}

/// One pad of ending the takes that ran out of storage: at the last whole bar it holds, or
/// where it holds none the take goes back.
pub open spec fn cut_step<S>(out: PadMask) -> Step<EngineView<S>> {
    |v: EngineView<S>, place: int, w: EngineView<S>, events: Seq<Event>|
        events == Seq::<Event>::empty() && match v.audio.recordings[place] {
            Some(recording) if holds_place(out, place) => cuts_pad(v, place, recording, w),
            _ => w == v,
        }
}

/// Ending a take that ran out of storage.
pub open spec fn cuts_pad<S>(
    v: EngineView<S>,
    place: int,
    recording: Recording,
    w: EngineView<S>,
) -> bool {
    let bar = v.audio.bar_frames as int;
    let bars = recording.written as int / bar;
    if bars == 0 {
        w == (EngineView { audio: w.audio, ..v }) && w.audio.refused == with_pad(
            v.audio.refused,
            place,
        ) && exists|alone: bool|
            lets_go(
                AudioView { recordings: v.audio.recordings.update(place, None), ..v.audio },
                place,
                alone,
                AudioView { refused: v.audio.refused, ..w.audio },
            )
    } else {
        let at = Frames(plus(recording.started_at.0 as int, bars * bar) as u64);
        w == (EngineView {
            session: match v.session[place] {
                SlotState::Recording { started_at, ends_at: _ } => v.session.update(
                    place,
                    SlotState::Recording { started_at, ends_at: Some(at) },
                ),
                _ => v.session,
            },
            ..v
        })
    }
}

/// The takes that ran out of storage end.
pub open spec fn cuts_short<S>(
    v: EngineView<S>,
    out: PadMask,
    w: EngineView<S>,
    events: Seq<Event>,
) -> bool {
    if out == 0 {
        w == v && events == Seq::<Event>::empty()
    } else {
        exists|mid: EngineView<S>, first: Seq<Event>|
            chained(cut_step(out), v, 64, mid, Seq::empty()) && #[trigger] refusals_settle(
                mid,
                w,
                first,
            ) && events == first + changes(v.session, w.session, 64)
    }
}

/// The frames of the input that belong to a run: none where the device did not deliver that
/// far.
pub open spec fn delivered<S>(input: Seq<S>, channels: int, offset: int, run: int) -> Seq<S> {
    let frames = input.len() as int / channels;
    if offset >= frames {
        Seq::empty()
    } else if frames - offset < run {
        input.subrange(offset * channels, frames * channels)
    } else {
        input.subrange(offset * channels, (offset + run) * channels)
    }
}

/// Finishing a run: its input is captured, and the transport moves on.
pub open spec fn finishes_run<S>(
    v: EngineView<S>,
    input: Seq<S>,
    offset: int,
    run: int,
    w: EngineView<S>,
    events: Seq<Event>,
) -> bool {
    exists|mid: Capturing<S>, audio: AudioView<S>, first: Seq<Event>, second: Seq<Event>|
        #![trigger captured_run(v, input, offset, run, mid, first), tails_end(mid, audio), first + second]
        captured_run(v, input, offset, run, mid, first) && tails_end(mid, audio) && cuts_short(
            EngineView { audio, ..v },
            mid.out,
            EngineView { click: v.click, position: v.position, ..w },
            second,
        ) && events == first + second && w.click == v.click.played(run) && w.position == Frames(
            (v.position.0 + run) as u64,
        )
}

/// Every pad's capture of a run.
pub open spec fn captured_run<S>(
    v: EngineView<S>,
    input: Seq<S>,
    offset: int,
    run: int,
    mid: Capturing<S>,
    events: Seq<Event>,
) -> bool {
    chained(
        capture_step(delivered(input, v.capture_channels, offset, run), v.capture_channels, run),
        Capturing { audio: v.audio, tailed: 0, out: 0 },
        64,
        mid,
        events,
    )
}

/// The recordings whose tail is complete end.
pub open spec fn tails_end<S>(mid: Capturing<S>, audio: AudioView<S>) -> bool {
    chained(tail_step(mid.tailed), mid.audio, 64, audio, Seq::empty())
}

/// The clock ticks crossed since they were last reported are added to the total, and reported
/// if there are any.
pub open spec fn reports_clock<S>(v: EngineView<S>, w: EngineView<S>, events: Seq<Event>) -> bool {
    let now = clock_at(v.grid, v.position.0 as int);
    if now <= v.last_clock {
        w == v && events == Seq::<Event>::empty()
    } else {
        let total = plus(v.clock_total as int, now - v.last_clock) as u64;
        w == (EngineView { last_clock: now, clock_total: total, ..v }) && events == seq![
            Event::Clock { total },
        ]
    }
}

/// Taking in steps of a load in order, no further than the first end.
pub open spec fn takes_in<S>(
    v: AudioView<S>,
    messages: Seq<LoadMessage<S>>,
    w: AudioView<S>,
    complete: bool,
) -> bool
    decreases messages.len(),
{
    if messages.len() == 0 {
        w == v && !complete
    } else {
        exists|mid: AudioView<S>, alone: bool|
            takes_in(v, messages.drop_last(), mid, false) && #[trigger] receives(
                mid,
                messages.last(),
                alone,
                w,
                complete,
            ) && !(messages.drop_last().len() > 0 && messages.drop_last().last() is End)
    }
}

/// One pad of putting a load in place: whatever it held is given up, and what arrived for it
/// takes its place. Loaded audio is stored outside the pool, and draws nothing from it.
pub open spec fn commit_step<S>() -> Step<EngineView<S>> {
    |v: EngineView<S>, place: int, w: EngineView<S>, events: Seq<Event>|
        events == Seq::<Event>::empty() && exists|mid: AudioView<S>, alone: bool|
            #[trigger] lets_go(
                AudioView { recordings: v.audio.recordings.update(place, None), ..v.audio },
                place,
                alone,
                mid,
            ) && w == installed(EngineView { audio: mid, ..v }, place)
}

/// A pad with what arrived for it in place.
pub open spec fn installed<S>(v: EngineView<S>, place: int) -> EngineView<S> {
    match v.audio.staged[place] {
        None => EngineView {
            session: v.session.update(place, SlotState::Empty),
            audio: AudioView { anchors: v.audio.anchors.update(place, None), ..v.audio },
            ..v
        },
        Some(staged) => {
            let id = v.audio.next_clip_id;
            EngineView {
                session: v.session.update(
                    place,
                    if staged.playing {
                        SlotState::Playing { clip: id }
                    } else {
                        SlotState::Stopped { clip: id }
                    },
                ),
                audio: AudioView {
                    anchors: v.audio.anchors.update(place, staged.launch_anchor),
                    clips: v.audio.clips.update(place, Some(staged.clip)),
                    staged: v.audio.staged.update(place, None),
                    next_clip_id: ClipId(((id.0 + 1) % 0x1_0000_0000) as u32),
                    ..v.audio
                },
                ..v
            }
        },
    }
}

/// A fully arrived load put in place of whatever is loaded now. The transport starts over, and
/// waits: the load arrives against a grid the performer has not heard yet.
pub open spec fn commits<S>(v: EngineView<S>, w: EngineView<S>, events: Seq<Event>) -> bool {
    exists|mid: EngineView<S>, first: Seq<Event>|
        chained(commit_step(), v, 64, mid, Seq::empty()) && #[trigger] rewinds(
            regridded_at_start(mid),
            w,
            first,
        ) && events == (match v.audio.staged_grid {
            Some(grid) => seq![signature_report(grid)] + first,
            None => first,
        })
}

/// The transport at its start, frozen and silent, on the grid of the load that is in place. A
/// move queued against what was replaced is forgotten.
pub open spec fn regridded_at_start<S>(v: EngineView<S>) -> EngineView<S> {
    let frozen = EngineView {
        position: Frames(0),
        pending: None,
        paused: true,
        silenced: true,
        audio: AudioView { staged_grid: None, ..v.audio },
        ..v
    };
    match v.audio.staged_grid {
        Some(grid) => EngineView {
            grid,
            time_signature: grid.signature_at(),
            audio: AudioView {
                bar_frames: grid.bar() as u64,
                tail_frames: tail_length(grid) as u64,
                ..frozen.audio
            },
            ..frozen
        },
        None => frozen,
    }
}

/// What a load costs, held to what can be counted.
pub open spec fn load_cost<S>(v: AudioView<S>) -> int {
    if staged_cost(v.staged, 64) <= usize::MAX {
        staged_cost(v.staged, 64)
    } else {
        usize::MAX as int
    }
}

/// A count held to 32 bits.
pub open spec fn count32(count: int) -> u32 {
    if count <= u32::MAX {
        count as u32
    } else {
        u32::MAX
    }
}

/// A complete load is put in place, or refused whole where it holds more audio than the pool
/// allows.
pub open spec fn settles_load<S>(v: EngineView<S>, w: EngineView<S>, events: Seq<Event>) -> bool {
    if load_cost(v.audio) > v.audio.pool.capacity {
        w == (EngineView { audio: abandoned(v.audio), ..v }) && events == seq![
            Event::LoadRefused {
                wanted: count32(load_cost(v.audio)),
                allowed: count32(v.audio.pool.capacity),
            },
        ]
    } else {
        exists|first: Seq<Event>| #[trigger]
            commits(v, w, first) && events == first + changes(v.session, w.session, 64)
    }
}

/// Steps of a load were taken in: up to the first end, until no more were waiting, or as many
/// as can wait.
pub open spec fn arrived<S>(
    v: EngineView<S>,
    messages: Seq<LoadMessage<S>>,
    audio: AudioView<S>,
) -> EngineView<S> {
    let stopped = messages.len() > 0 && messages.last() is End || messages.len() >= SLOTS;
    EngineView {
        received: v.received + messages,
        idle: if stopped {
            v.idle
        } else {
            v.idle + 1
        },
        audio,
        ..v
    }
}

/// Whatever steps of a load have arrived are taken in, and a load that is complete is settled.
pub open spec fn applies_loads<S>(v: EngineView<S>, w: EngineView<S>, events: Seq<Event>) -> bool {
    exists|messages: Seq<LoadMessage<S>>, audio: AudioView<S>, complete: bool|
        #[trigger] takes_in(v.audio, messages, audio, complete) && {
            let mid = arrived(v, messages, audio);
            if complete {
                settles_load(mid, w, events)
            } else {
                w == mid && events == Seq::<Event>::empty()
            }
        }
}

/// A transport move that waited for the mix to fade lands once it has.
pub open spec fn lands<S>(
    v: EngineView<S>,
    faded: bool,
    w: EngineView<S>,
    events: Seq<Event>,
) -> bool {
    match v.pending {
        Some(action) if faded => exists|first: Seq<Event>|
            #[trigger] performs(EngineView { pending: None, ..v }, action, w, first) && events
                == first + changes(v.session, w.session, 64),
        _ => w == v && events == Seq::<Event>::empty(),
    }
}

/// Beginning a block: clips come back from the recycler, loads are applied, a move that waited
/// lands, and input that fell short is reported unless the transport is frozen.
pub open spec fn begins_block<S>(
    v: EngineView<S>,
    faded: bool,
    frames: int,
    input_frames: int,
    w: EngineView<S>,
    events: Seq<Event>,
) -> bool {
    exists|
        audio: AudioView<S>,
        mid: EngineView<S>,
        first: Seq<Event>,
        second: Seq<Event>,
    |
        #![trigger reclaims(v.audio, audio), applies_loads(EngineView { audio, ..v }, mid, first), lands(mid, faded, w, second)]
        reclaims(v.audio, audio) && applies_loads(EngineView { audio, ..v }, mid, first)
            && lands(mid, faded, w, second) && events == first + second + (if !w.paused
            && input_frames < frames {
            seq![Event::Xrun { frames: (frames - input_frames) as u64 }]
        } else {
            Seq::<Event>::empty()
        })
}

} // verus!
