//! What one pass of the control loop leaves for the next.
//!
//! The loop polls the surface, hands over what the performer asked for, drains what the engine
//! reported and repaints. The polling and the painting are the caller's; what to do about it is
//! decided here.

use vstd::prelude::*;
use vstd::string::*;

use crate::command::Command;
use crate::control::{
    marked, passed, pictured, text_view, Chrome, Controller, ControllerView, Request, TextUpdate,
    Work,
};
use crate::device::{Nanos, LONGEST};
use crate::engine::Housekeeping;
use crate::event::Event;
use crate::ids::{LaunchMode, SlotAddr, TrackInput};
use crate::lane::Outbox;
use crate::load::fits;
use crate::recycle::Recycler;
use crate::reports::{dropped_since, kind_at, lost_report, lost_texts, DroppedEvents};
use crate::screen::Mode;
use crate::snapshot::Snapshot;
use crate::surface::{LedFrame, SurfaceEvent};
use crate::text::{decimal, digits};
use crate::time::{Tempo, TimeSignature};

verus! {

/// How long a save waits for the engine to publish its clips before giving up.
pub const SAVE_TIMEOUT: Nanos = 2_000_000_000;

/// How long to gather short capture before mentioning it.
pub const XRUN_REPORT_EVERY: Nanos = 2_000_000_000;

/// How long to gather clipping before saying anything.
pub const CLIP_REPORT_EVERY: Nanos = 2_000_000_000;

/// How often the control loop runs.
pub const TICK: Nanos = 2_000_000;

/// How a track's input reads.
pub open spec fn input_text(input: TrackInput) -> Seq<char> {
    match input {
        TrackInput::Stereo => "input channels in order"@,
        TrackInput::Mono(channel) => "input channel "@ + digits(channel as int),
        TrackInput::Pair(left, right) => "input channels "@ + digits(left as int) + " and "@
            + digits(right as int),
    }
}

/// How a track's input reads on the startup line.
pub fn describe_input(input: TrackInput) -> (r: String)
    ensures
        r@ == input_text(input),
{
    match input {
        TrackInput::Stereo => String::from_str("input channels in order"),
        TrackInput::Mono(channel) => {
            let mut text: String = String::from_str("input channel ");
            text.append(decimal(channel as u64).as_str());
            text
        },
        TrackInput::Pair(left, right) => {
            let mut text: String = String::from_str("input channels ");
            text.append(decimal(left as u64).as_str());
            text.append(" and ");
            text.append(decimal(right as u64).as_str());
            text
        },
    }
}

/// Collects something that happens every block, so that it is mentioned now and then rather than
/// every time.
#[derive(Debug, Clone, Copy, PartialEq, Eq, Structural)]
pub struct Gathered {
    /// How much has been gathered since it was last mentioned.
    pub count: u64,
    /// When it was last mentioned.
    pub last: Nanos,
}

impl Gathered {
    /// Nothing gathered.
    pub fn new() -> (r: Self)
        ensures
            r == (Gathered { count: 0, last: 0 }),
    {
        Gathered { count: 0, last: 0 }
    }

    /// Everything gathered, with some more.
    pub open spec fn with(self, more: u64) -> u64 {
        if self.count + more <= u64::MAX {
            (self.count + more) as u64
        } else {
            u64::MAX
        }
    }

    /// Gathers some more. Returns how much there is to mention, if it is time to.
    pub fn note(&mut self, more: u64, now: Nanos, every: Nanos) -> (r: Option<u64>)
        ensures
            r == (if old(self).with(more) > 0 && passed(now, old(self).last) >= every {
                Some(old(self).with(more))
            } else {
                None
            }),
            *final(self) == (match r {
                Some(_) => Gathered { count: 0, last: now },
                None => Gathered { count: old(self).with(more), ..*old(self) },
            }),
    {
        self.count = self.count.saturating_add(more);
        if self.count == 0 || now.saturating_sub(self.last) < every {
            return None;
        }
        let all: u64 = self.count;
        self.count = 0;
        self.last = now;
        Some(all)
    }
}

/// What a save records of a track besides its audio.
#[derive(Debug, Clone, Copy, PartialEq, Eq, Structural)]
pub struct TrackSettings {
    /// The input it records.
    pub input: TrackInput,
    /// Whether its clips restart when launched.
    pub restart: bool,
    /// Beats it opens its loops from the tail for.
    pub pickup: u8,
    /// How loud it plays, as a step on the gain ladder.
    pub gain_step: u8,
}

/// What a save records besides the audio.
#[derive(Debug, Clone, Copy)]
pub struct SaveSettings {
    /// What the performer has the transport set to, not what the config file says.
    pub tempo: Tempo,
    /// The signature the material is in, which a load can have changed.
    pub time_signature: TimeSignature,
    /// What every track is set to.
    pub tracks: [TrackSettings; 8],
}

/// What a track is set to.
pub open spec fn track_settings(chrome: Chrome, track: int) -> TrackSettings {
    TrackSettings {
        input: chrome.inputs[track],
        restart: chrome.launch_modes[track] is Restart,
        pickup: chrome.pickups[track],
        gain_step: chrome.gains[track],
    }
}

/// Whether settings are what a controller has set.
pub open spec fn records(settings: SaveSettings, v: ControllerView) -> bool {
    &&& settings.tempo == v.tempo
    &&& settings.time_signature == v.time_signature
    &&& forall|track: int|
        0 <= track < 8 ==> #[trigger] settings.tracks[track] == track_settings(v.chrome, track)
}

/// What the controller currently has set.
pub fn save_settings(controller: &Controller) -> (r: SaveSettings)
    ensures
        records(r, controller@),
{
    let inputs: [TrackInput; 8] = controller.inputs();
    let modes: [LaunchMode; 8] = controller.launch_modes();
    let pickups: [u8; 8] = controller.pickups();
    let gains: [u8; 8] = controller.gains();
    let first = TrackSettings {
        input: inputs[0],
        restart: modes[0].restarts(),
        pickup: pickups[0],
        gain_step: gains[0],
    };
    let mut tracks: [TrackSettings; 8] = [first; 8];
    let mut track: usize = 0;
    while track < 8
        invariant
            track <= 8,
            inputs == controller@.chrome.inputs,
            modes == controller@.chrome.launch_modes,
            pickups == controller@.chrome.pickups,
            gains == controller@.chrome.gains,
            forall|i: int|
                0 <= i < track ==> #[trigger] tracks[i] == track_settings(controller@.chrome, i),
        decreases 8 - track,
    {
        tracks[track] = TrackSettings {
            input: inputs[track],
            restart: modes[track].restarts(),
            pickup: pickups[track],
            gain_step: gains[track],
        };
        track += 1;
    }
    SaveSettings { tempo: controller.tempo(), time_signature: controller.time_signature(), tracks }
}

/// A save waiting on the engine to publish its clips.
#[derive(Debug, Clone, Copy)]
pub struct PendingSave {
    /// When the answer stops being expected.
    ///
    /// A completion is a reply, not a state, so a lost one cannot be replayed.
    pub deadline: Nanos,
    /// The request the engine will tag its answer with.
    pub request: u32,
    /// Where the session goes.
    pub addr: SlotAddr,
    /// Taken when the snapshot was asked for, so the audio and the settings describe the
    /// same moment.
    pub settings: SaveSettings,
}

/// A save whose snapshots have all been accounted for.
#[derive(Debug, Clone, Copy)]
pub struct Answered {
    /// Where the session goes.
    pub addr: SlotAddr,
    /// What was set when the snapshot was asked for.
    pub settings: SaveSettings,
    /// Pads that arrived.
    pub clips: u32,
    /// Pads there were to send. More than `clips` means some were lost on the way.
    pub expected: u32,
}

impl Answered {
    /// Whether all of it arrived, so that it can be written.
    pub fn is_whole(&self) -> (r: bool)
        ensures
            r == (self.clips == self.expected),
    {
        self.clips == self.expected
    }
}

/// What became of the save that was waiting.
#[derive(Debug, Clone, Copy)]
pub enum SaveOutcome {
    /// Still waiting for its answer.
    Waiting,
    /// Its answer arrived.
    Answered(Answered),
    /// Its answer never came.
    Expired(SlotAddr),
}

/// What becomes of a save that is waiting. An answer that arrived wins over the deadline, even
/// on the pass the deadline falls on: the engine will not send it again.
pub open spec fn save_resolved(
    pending: Option<PendingSave>,
    answered: Option<(u32, u32, u32)>,
    now: Nanos,
) -> (Option<PendingSave>, SaveOutcome) {
    match (pending, answered) {
        (None, _) => (None, SaveOutcome::Waiting),
        (Some(save), Some((request, clips, expected))) if request == save.request => (
            None,
            SaveOutcome::Answered(
                Answered { addr: save.addr, settings: save.settings, clips, expected },
            ),
        ),
        (Some(save), _) => if now >= save.deadline {
            (None, SaveOutcome::Expired(save.addr))
        } else {
            (pending, SaveOutcome::Waiting)
        },
    }
}

/// Decides what to do with the save that is waiting.
///
/// An answer that arrived wins over the deadline, even on the pass the deadline falls on:
/// the engine will not send it again.
pub fn resolve_save(
    pending: &mut Option<PendingSave>,
    answered: Option<(u32, u32, u32)>,
    now: Nanos,
) -> (r: SaveOutcome)
    ensures
        (*final(pending), r) == save_resolved(*old(pending), answered, now),
{
    let save: PendingSave = match *pending {
        Some(save) => save,
        None => {
            return SaveOutcome::Waiting;
        },
    };
    if let Some((request, clips, expected)) = answered {
        if save.request == request {
            *pending = None;
            return SaveOutcome::Answered(
                Answered { addr: save.addr, settings: save.settings, clips, expected },
            );
        }
    }
    if now >= save.deadline {
        *pending = None;
        return SaveOutcome::Expired(save.addr);
    }
    SaveOutcome::Waiting
}

/// The commands of a list of work that holds nothing else.
pub open spec fn only_commands(work: Seq<Work>) -> Seq<Command> {
    work.map_values(|work: Work| work->Command_0)
}

/// Whether a list of work holds commands alone.
pub open spec fn all_commands(work: Seq<Work>) -> bool {
    forall|i: int| 0 <= i < work.len() ==> (#[trigger] work[i]) is Command
}

/// Handing a queue over in order: `count` commands from its front have gone, and it stops at a
/// request, which surfaces, at a command that did not fit, or at its end. Nothing moves while a
/// load is waiting.
pub open spec fn hands_over(
    queued: (Seq<Work>, Seq<Work>),
    loading: bool,
    sent: (Seq<Command>, Seq<Command>),
    count: int,
    surfaced: Option<Request>,
) -> bool {
    &&& 0 <= count <= queued.0.len()
    &&& loading ==> count == 0 && surfaced is None
    &&& all_commands(queued.0.take(count))
    &&& sent.1 == sent.0 + only_commands(queued.0.take(count))
    &&& match surfaced {
        Some(request) => count < queued.0.len() && queued.0[count] == Work::Request(request)
            && queued.1 == queued.0.skip(count + 1),
        None => queued.1 == queued.0.skip(count) && (loading || count == queued.0.len()
            || queued.0[count] is Command),
    }
}

/// Hands `queued` to the engine in order, up to the first thing that cannot go yet.
///
/// Returns the request that surfaced, which is the caller's to act on: everything asked
/// for before it has reached the engine by then. Nothing moves while `loading`, since the
/// audio side applies a load after the commands it has already taken. It waits with something
/// left only where the lane had no room for the next command.
pub fn hand_over(queued: &mut Vec<Work>, loading: bool, out: &mut Outbox<Command>) -> (r: Option<
    Request,
>)
    ensures
        exists|count: int| #[trigger]
            hands_over(
                (old(queued)@, final(queued)@),
                loading,
                (old(out)@, final(out)@),
                count,
                r,
            ),
        final(out).full() == (if r is None && !loading && final(queued)@.len() > 0 {
            old(out).full() + 1
        } else {
            old(out).full()
        }),
        final(out).full() > old(out).full() ==> final(out)@.len() >= old(out).limit(),
        final(out).limit() == old(out).limit(),
{
    let ghost mut count: int = 0;
    proof {
        assert(queued@.take(0) =~= Seq::empty());
        assert(queued@ =~= old(queued)@.skip(0));
        assert(out@ =~= old(out)@ + only_commands(old(queued)@.take(0)));
    }
    if loading {
        assert(hands_over((old(queued)@, queued@), loading, (old(out)@, out@), 0, None));
        return None;
    }
    while queued.len() > 0
        invariant
            !loading,
            0 <= count <= old(queued)@.len(),
            queued@ == old(queued)@.skip(count),
            all_commands(old(queued)@.take(count)),
            out@ == old(out)@ + only_commands(old(queued)@.take(count)),
            out.full() == old(out).full(),
            out.limit() == old(out).limit(),
        decreases queued@.len(),
    {
        let work: Work = queued[0];
        assert(work == old(queued)@[count]);
        match work {
            Work::Command(command) => {
                if out.send(command).is_err() {
                    // No room. Order matters, so the rest wait behind it.
                    assert(hands_over(
                        (old(queued)@, queued@),
                        loading,
                        (old(out)@, out@),
                        count,
                        None,
                    ));
                    return None;
                }
                queued.remove(0);
                proof {
                    let longer = old(queued)@.take(count + 1);
                    assert(longer =~= old(queued)@.take(count).push(work));
                    assert(only_commands(longer) =~= only_commands(old(queued)@.take(count)).push(
                        command,
                    ));
                    assert(out@ =~= old(out)@ + only_commands(longer));
                    assert(queued@ =~= old(queued)@.skip(count + 1));
                    count = count + 1;
                }
            },
            Work::Request(request) => {
                queued.remove(0);
                assert(queued@ =~= old(queued)@.skip(count + 1));
                assert(hands_over(
                    (old(queued)@, queued@),
                    loading,
                    (old(out)@, out@),
                    count,
                    Some(request),
                ));
                return Some(request);
            },
        }
    }
    assert(hands_over((old(queued)@, queued@), loading, (old(out)@, out@), count, None));
    None
}

/// What one pass of the engine's reports added up to.
#[derive(Debug, Clone, Copy, PartialEq, Eq)]
pub struct Drained {
    /// The snapshot completion, if one arrived: its request, the pads that arrived and the pads
    /// there were.
    pub answered: Option<(u32, u32, u32)>,
    /// The transport's running clock count, if it reported one.
    pub clock_total: Option<u64>,
    /// Samples that were held at full scale.
    pub clipped: u32,
    /// Frames of capture that came up short.
    pub short_frames: u64,
}

/// A sum held to 32 bits.
pub open spec fn plus32(a: u32, b: u32) -> u32 {
    if a + b <= u32::MAX {
        (a + b) as u32
    } else {
        u32::MAX
    }
}

/// A sum held to 64 bits.
pub open spec fn plus64(a: u64, b: u64) -> u64 {
    if a + b <= u64::MAX {
        (a + b) as u64
    } else {
        u64::MAX
    }
}

impl Drained {
    /// Nothing reported.
    pub fn new() -> (r: Self)
        ensures
            r == (Drained { answered: None, clock_total: None, clipped: 0, short_frames: 0 }),
    {
        Drained { answered: None, clock_total: None, clipped: 0, short_frames: 0 }
    }

    /// One more report.
    pub open spec fn with(self, event: Event) -> Self {
        match event {
            Event::SnapshotComplete { request, clips, expected } => Drained {
                answered: Some((request, clips, expected)),
                ..self
            },
            Event::Clock { total } => Drained { clock_total: Some(total), ..self },
            Event::Clipped { samples } => Drained {
                clipped: plus32(self.clipped, samples),
                ..self
            },
            Event::Xrun { frames } => Drained {
                short_frames: plus64(self.short_frames, frames),
                ..self
            },
            _ => self,
        }
    }

    /// Adds one report.
    pub fn note(&mut self, event: Event)
        ensures
            *final(self) == old(self).with(event),
    {
        match event {
            Event::SnapshotComplete { request, clips, expected } => {
                self.answered = Some((request, clips, expected));
            },
            Event::Clock { total } => {
                self.clock_total = Some(total);
            },
            Event::Clipped { samples } => {
                self.clipped = self.clipped.saturating_add(samples);
            },
            Event::Xrun { frames } => {
                self.short_frames = self.short_frames.saturating_add(frames);
            },
            _ => {},
        }
    }
}

/// What the first so many reports add up to.
pub open spec fn added_up(events: Seq<Event>, to: int) -> Drained
    decreases to,
{
    if to <= 0 {
        Drained { answered: None, clock_total: None, clipped: 0, short_frames: 0 }
    } else {
        added_up(events, to - 1).with(events[to - 1])
    }
}

/// The controller after the first so many reports.
pub open spec fn informed(v: ControllerView, events: Seq<Event>, now: Nanos, to: int) -> ControllerView
    decreases to,
{
    if to <= 0 {
        v
    } else {
        informed(v, events, now, to - 1).takes_report(events[to - 1], now)
    }
}

/// Takes everything the engine has reported, mirroring as it goes.
pub fn drain_engine(events: &Vec<Event>, controller: &mut Controller, now: Nanos) -> (r: Drained)
    requires
        now <= LONGEST,
    ensures
        r == added_up(events@, events@.len() as int),
        final(controller)@ == informed(old(controller)@, events@, now, events@.len() as int),
{
    let mut drained: Drained = Drained::new();
    let mut index: usize = 0;
    while index < events.len()
        invariant
            now <= LONGEST,
            index <= events@.len(),
            drained == added_up(events@, index as int),
            controller@ == informed(old(controller)@, events@, now, index as int),
        decreases events@.len() - index,
    {
        let event: Event = events[index];
        drained.note(event);
        controller.on_engine(event, now);
        index += 1;
    }
    drained
}

/// The controller after the first so many gestures.
pub open spec fn gestured(
    v: ControllerView,
    events: Seq<SurfaceEvent>,
    now: Nanos,
    to: int,
) -> ControllerView
    decreases to,
{
    if to <= 0 {
        v
    } else {
        gestured(v, events, now, to - 1).takes_gesture(events[to - 1], now)
    }
}

/// Hands the controller everything the performer did, then lets time pass.
pub fn take_gestures(events: &Vec<SurfaceEvent>, controller: &mut Controller, now: Nanos)
    requires
        now <= LONGEST,
    ensures
        final(controller)@ == gestured(
            old(controller)@,
            events@,
            now,
            events@.len() as int,
        ).ticks(now),
{
    let mut index: usize = 0;
    while index < events.len()
        invariant
            now <= LONGEST,
            index <= events@.len(),
            controller@ == gestured(old(controller)@, events@, now, index as int),
        decreases events@.len() - index,
    {
        controller.on_surface(events[index], now);
        index += 1;
    }
    controller.tick(now);
}

/// How much of the running clock count a surface has not had yet, and the count it has had
/// then.
pub open spec fn clock_due(total: Option<u64>, sent: u64) -> (u32, u64) {
    match total {
        None => (0, sent),
        Some(total) => (
            if total <= sent {
                0
            } else if total - sent <= u32::MAX {
                (total - sent) as u32
            } else {
                u32::MAX
            },
            total,
        ),
    }
}

/// How much of the running clock count a surface has not had yet, and the count it has had
/// then. Keeps the device's flash and pulse animations on the transport's tempo.
pub fn forward_clock(total: Option<u64>, sent: u64) -> (r: (u32, u64))
    ensures
        r == clock_due(total, sent),
{
    match total {
        None => (0, sent),
        Some(total) => {
            let ticks: u64 = total.saturating_sub(sent);
            if ticks <= u32::MAX as u64 {
                (ticks as u32, total)
            } else {
                (u32::MAX, total)
            }
        },
    }
}

/// Whether a window has to be told which screen is showing.
pub fn has_to_publish(mode: Mode, published: Option<Mode>) -> (r: bool)
    ensures
        r == (published != Some(mode)),
{
    published != Some(mode)
}

/// The snapshots of a list that answer a request, in order.
pub open spec fn answering<S>(snapshots: Seq<Snapshot<S>>, request: u32, to: int) -> Seq<Snapshot<S>>
    decreases to,
{
    if to <= 0 {
        Seq::empty()
    } else if snapshots[to - 1].request == request {
        answering(snapshots, request, to - 1).push(snapshots[to - 1])
    } else {
        answering(snapshots, request, to - 1)
    }
}

/// Takes the snapshots belonging to the save that is waiting, dropping stale ones.
pub fn collect_snapshots<S>(
    arrived: Vec<Snapshot<S>>,
    pending: &Option<PendingSave>,
    into: &mut Vec<Snapshot<S>>,
)
    ensures
        final(into)@ == (match *pending {
            Some(save) => old(into)@ + answering(arrived@, save.request, arrived@.len() as int),
            None => old(into)@,
        }),
{
    let request: u32 = match pending {
        Some(save) => save.request,
        None => {
            return ;
        },
    };
    let mut rest: Vec<Snapshot<S>> = arrived;
    let ghost mut seen: int = 0;
    proof {
        assert(rest@ =~= arrived@.skip(0));
        assert(into@ =~= old(into)@ + answering(arrived@, request, 0));
    }
    while rest.len() > 0
        invariant
            0 <= seen <= arrived@.len(),
            rest@ == arrived@.skip(seen),
            into@ == old(into)@ + answering(arrived@, request, seen),
        decreases rest@.len(),
    {
        let snapshot: Snapshot<S> = rest.remove(0);
        assert(snapshot == arrived@[seen]);
        // An answer to a request that has been superseded is not part of this save.
        if snapshot.request == request {
            into.push(snapshot);
        }
        proof {
            assert(rest@ =~= arrived@.skip(seen + 1));
            assert(into@ =~= old(into)@ + answering(arrived@, request, seen + 1));
            seen = seen + 1;
        }
    }
    assert(seen == arrived@.len());
}

/// Something worth telling the user.
#[derive(Debug)]
pub enum Notice {
    /// For information.
    Info(String),
    /// Something went wrong.
    Warn(String),
}

/// What a notice says, and whether something went wrong.
pub open spec fn notice_text(notice: Option<Notice>) -> Option<(bool, Seq<char>)> {
    match notice {
        Some(Notice::Info(text)) => Some((false, text@)),
        Some(Notice::Warn(text)) => Some((true, text@)),
        None => None,
    }
}

/// What is worth knowing of a report. Bars, beats and slot changes are on the grid already, and
/// clipping and short capture come too often.
pub open spec fn worth_knowing(event: Event) -> Option<(bool, Seq<char>)> {
    match event {
        Event::ClipRecorded { addr, clip: _, len } => Some(
            (
                false,
                "recorded track "@ + digits(addr.track.num()) + " slot "@ + digits(addr.slot.num())
                    + ": "@ + digits(len.0 as int) + " frames"@,
            ),
        ),
        Event::RecordingRefused { addr } => Some(
            (
                true,
                "no clip from track "@ + digits(addr.track.num()) + " slot "@ + digits(
                    addr.slot.num(),
                ) + "; the pad is left empty"@,
            ),
        ),
        Event::RecordBufferLow { addr } => Some(
            (
                true,
                "out of recording space on track "@ + digits(addr.track.num()) + " slot "@ + digits(
                    addr.slot.num(),
                ) + "; the take will be cut short"@,
            ),
        ),
        Event::LoadRefused { wanted, allowed } => Some(
            (
                true,
                "session needs "@ + digits(wanted as int) + " segments but the pool holds "@
                    + digits(allowed as int),
            ),
        ),
        Event::TempoRejected => Some((true, "tempo is locked while clips exist"@)),
        Event::TimeSignatureRejected => Some(
            (true, "the time signature is locked while clips exist"@),
        ),
        _ => None,
    }
}

/// A pad's track and slot between two pieces of text.
fn about_pad(before: &str, addr: SlotAddr, after: &str) -> (r: String)
    ensures
        r@ == before@ + digits(addr.track.num()) + " slot "@ + digits(addr.slot.num()) + after@,
{
    let mut text: String = String::from_str(before);
    text.append(decimal(addr.track.index() as u64).as_str());
    text.append(" slot ");
    text.append(decimal(addr.slot.index() as u64).as_str());
    text.append(after);
    text
}

/// Says what is worth knowing. Bars, beats and slot changes are on the grid already.
pub fn report(event: Event) -> (r: Option<Notice>)
    ensures
        notice_text(r) == worth_knowing(event),
{
    match event {
        Event::ClipRecorded { addr, len, .. } => {
            let mut text: String = about_pad("recorded track ", addr, ": ");
            text.append(decimal(len.0).as_str());
            text.append(" frames");
            Some(Notice::Info(text))
        },
        Event::RecordingRefused { addr } => Some(
            Notice::Warn(about_pad("no clip from track ", addr, "; the pad is left empty")),
        ),
        Event::RecordBufferLow { addr } => Some(
            Notice::Warn(
                about_pad(
                    "out of recording space on track ",
                    addr,
                    "; the take will be cut short",
                ),
            ),
        ),
        Event::LoadRefused { wanted, allowed } => {
            let mut text: String = String::from_str("session needs ");
            text.append(decimal(wanted as u64).as_str());
            text.append(" segments but the pool holds ");
            text.append(decimal(allowed as u64).as_str());
            Some(Notice::Warn(text))
        },
        Event::TempoRejected => Some(
            Notice::Warn(String::from_str("tempo is locked while clips exist")),
        ),
        Event::TimeSignatureRejected => Some(
            Notice::Warn(String::from_str("the time signature is locked while clips exist")),
        ),
        _ => None,
    }
}

/// What a loaded session sets besides its audio.
#[derive(Debug, Clone, Copy)]
pub struct Restored {
    /// What every track was set to.
    pub tracks: [TrackSettings; 8],
    /// What the session was recorded at, which the engine has already taken.
    pub tempo: Tempo,
    /// What the session was recorded in, which the engine has already taken.
    pub time_signature: TimeSignature,
}

/// An input held to what a device with so many channels delivers.
pub open spec fn input_within(input: TrackInput, channels: int) -> TrackInput {
    match input {
        TrackInput::Stereo => TrackInput::Stereo,
        TrackInput::Mono(channel) => if channel < channels {
            input
        } else {
            TrackInput::Mono(0)
        },
        TrackInput::Pair(left, right) => if left < channels && right < channels {
            input
        } else {
            TrackInput::Stereo
        },
    }
}

/// Whether four lists of settings are those a session came with, the inputs held to what the
/// device delivers.
pub open spec fn restores(
    restored: Restored,
    channels: int,
    gains: [u8; 8],
    inputs: [TrackInput; 8],
    modes: [LaunchMode; 8],
    pickups: [u8; 8],
) -> bool {
    forall|track: int|
        #![trigger restored.tracks[track]]
        0 <= track < 8 ==> {
            &&& gains[track] == restored.tracks[track].gain_step
            &&& inputs[track] == input_within(restored.tracks[track].input, channels)
            &&& modes[track] == (if restored.tracks[track].restart {
                LaunchMode::Restart
            } else {
                LaunchMode::Follow
            })
            &&& pickups[track] == restored.tracks[track].pickup
        }
}

/// The controller after a session was loaded, given the settings it came with.
pub open spec fn loaded(
    v: ControllerView,
    restored: Restored,
    addr: SlotAddr,
    gains: [u8; 8],
    inputs: [TrackInput; 8],
    modes: [LaunchMode; 8],
    pickups: [u8; 8],
) -> ControllerView {
    let levelled = v.resets(Chrome { gains, ..v.chrome }).takes_tempo(
        restored.tempo,
    ).adopts_signature(restored.time_signature);
    let routed = levelled.resets(Chrome { inputs, ..levelled.chrome });
    let anchored = routed.resets(Chrome { launch_modes: modes, ..routed.chrome });
    let opened = anchored.resets(Chrome { pickups, ..anchored.chrome });
    (ControllerView { current: Some(addr), ..opened }).with_chrome(
        Chrome { paused: true, ..opened.chrome },
    ).turns_to(Mode::Perform)
}

/// Tells the controller what came with a loaded session.
pub fn take_session(
    controller: &mut Controller,
    restored: &Restored,
    addr: SlotAddr,
    capture_channels: usize,
)
    ensures
        exists|gains: [u8; 8], inputs: [TrackInput; 8], modes: [LaunchMode; 8], pickups: [u8; 8]|
            #[trigger] restores(
                *restored,
                capture_channels as int,
                gains,
                inputs,
                modes,
                pickups,
            ) && final(controller)@ == loaded(
                old(controller)@,
                *restored,
                addr,
                gains,
                inputs,
                modes,
                pickups,
            ),
        forall|track: int|
            #![trigger restored.tracks[track]]
            0 <= track < 8 ==> {
                let set = final(controller)@.chrome;
                let was = restored.tracks[track];
                &&& set.launch_modes[track] is Restart <==> was.restart
                &&& set.gains[track] == was.gain_step
                &&& set.pickups[track] == was.pickup
                &&& set.inputs[track] == input_within(was.input, capture_channels as int)
            },
        final(controller)@.tempo == restored.tempo,
        final(controller)@.time_signature == restored.time_signature,
{
    let mut gains: [u8; 8] = [0; 8];
    let mut inputs: [TrackInput; 8] = [TrackInput::Stereo; 8];
    let mut modes: [LaunchMode; 8] = [LaunchMode::Follow; 8];
    let mut pickups: [u8; 8] = [0; 8];
    let mut track: usize = 0;
    while track < 8
        invariant
            track <= 8,
            forall|i: int|
                #![trigger restored.tracks[i]]
                0 <= i < track ==> {
                    &&& gains[i] == restored.tracks[i].gain_step
                    &&& inputs[i] == input_within(
                        restored.tracks[i].input,
                        capture_channels as int,
                    )
                    &&& modes[i] == (if restored.tracks[i].restart {
                        LaunchMode::Restart
                    } else {
                        LaunchMode::Follow
                    })
                    &&& pickups[i] == restored.tracks[i].pickup
                },
        decreases 8 - track,
    {
        let settings: TrackSettings = restored.tracks[track];
        gains[track] = settings.gain_step;
        // A session recorded on a wider interface names channels this one may not have.
        inputs[track] = settings.input.within(capture_channels);
        modes[track] = if settings.restart {
            LaunchMode::Restart
        } else {
            LaunchMode::Follow
        };
        pickups[track] = settings.pickup;
        track += 1;
    }
    controller.set_gains(gains);
    controller.set_loaded_tempo(restored.tempo);
    controller.set_loaded_time_signature(restored.time_signature);
    controller.set_inputs(inputs);
    controller.set_launch_modes(modes);
    controller.set_pickups(pickups);
    controller.session_loaded(addr, true);
    assert(restores(*restored, capture_channels as int, gains, inputs, modes, pickups));
}

/// Whether a device with so many channels delivers an input. The first two are always there to
/// be asked for.
pub open spec fn is_delivered(input: TrackInput, channels: int) -> bool {
    match input {
        TrackInput::Stereo => true,
        TrackInput::Mono(channel) => channel < channels,
        TrackInput::Pair(left, right) => left < channels && right < channels,
    }
}

/// What was saved comes back. A controller that has taken a session in is set to the session's
/// tempo and signature, and every track to the session's gain, pickup and launch mode, and to its
/// input where the device delivers it. What is saved from then on is what was loaded.
pub proof fn a_saved_session_comes_back(
    v: ControllerView,
    restored: Restored,
    channels: int,
    addr: SlotAddr,
    gains: [u8; 8],
    inputs: [TrackInput; 8],
    modes: [LaunchMode; 8],
    pickups: [u8; 8],
    w: ControllerView,
    saved: SaveSettings,
)
    requires
        restores(restored, channels, gains, inputs, modes, pickups),
        w == loaded(v, restored, addr, gains, inputs, modes, pickups),
        records(saved, w),
    ensures
        saved.tempo == restored.tempo,
        saved.time_signature == restored.time_signature,
        forall|track: int|
            #![trigger saved.tracks[track]]
            #![trigger restored.tracks[track]]
            0 <= track < 8 ==> {
                &&& is_delivered(restored.tracks[track].input, channels) ==> saved.tracks[track]
                    == restored.tracks[track]
                &&& saved.tracks[track] == (TrackSettings {
                    input: saved.tracks[track].input,
                    ..restored.tracks[track]
                })
                &&& w.chrome.launch_modes[track] is Restart <==> restored.tracks[track].restart
                &&& w.chrome.gains[track] == restored.tracks[track].gain_step
                &&& w.chrome.pickups[track] == restored.tracks[track].pickup
            },
        w.current == Some(addr),
        w.chrome.paused,
        w.mode is Perform,
{
    assert forall|track: int|
        #![trigger saved.tracks[track]]
        #![trigger restored.tracks[track]]
        0 <= track < 8 implies {
        &&& is_delivered(restored.tracks[track].input, channels) ==> saved.tracks[track]
            == restored.tracks[track]
        &&& saved.tracks[track] == (TrackSettings {
            input: saved.tracks[track].input,
            ..restored.tracks[track]
        })
        &&& w.chrome.launch_modes[track] is Restart <==> restored.tracks[track].restart
        &&& w.chrome.gains[track] == restored.tracks[track].gain_step
        &&& w.chrome.pickups[track] == restored.tracks[track].pickup
    } by {
        let was = restored.tracks[track];
        assert(saved.tracks[track] == track_settings(w.chrome, track));
    }
}

/// An input the device does not deliver is replaced by one it does: one channel by the first, a
/// pair by the default.
pub proof fn inputs_are_always_delivered(input: TrackInput, channels: int)
    requires
        0 < channels,
    ensures
        is_delivered(input_within(input, channels), channels),
        is_delivered(input, channels) ==> input_within(input, channels) == input,
        input_within(input, channels) is Mono <==> input is Mono,
{
}

/// What one pass of the control loop leaves for the next.
pub struct Looping<S> {
    /// Everything the performer has asked for that the engine has not taken, in order.
    pub queued: Vec<Work>,
    /// Whether a load is still sitting in the loader's channel.
    pub loading: bool,
    /// A save waiting on the answer to one request.
    pub pending_save: Option<PendingSave>,
    /// Clips the engine has published towards the save that is waiting.
    pub snapshots: Vec<Snapshot<S>>,
    /// Tags one snapshot request apart from another.
    pub next_request: u32,
    /// Samples held at full scale.
    pub clipping: Gathered,
    /// Frames of capture that came up short.
    pub xruns: Gathered,
    /// Reports that never arrived, against the engine's running count.
    pub missed_reports: DroppedEvents,
    /// Clock ticks the surface has had, against the total the engine reports.
    pub clock_sent: u64,
    /// Whether the round trip has been reported, which is only known once it runs.
    pub reported_latency: bool,
    /// Whether a surface was attached last pass.
    pub connected: bool,
    /// The screen last published to a window.
    pub published: Option<Mode>,
}

impl<S> Looping<S> {
    /// A loop that is about to begin.
    pub fn new(connected: bool) -> (r: Self)
        ensures
            r.queued@.len() == 0,
            !r.loading,
            r.pending_save is None,
            r.snapshots@.len() == 0,
            r.next_request == 0,
            r.clipping == (Gathered { count: 0, last: 0 }),
            r.xruns == (Gathered { count: 0, last: 0 }),
            r.missed_reports@ == Seq::new(16, |i: int| 0u64),
            r.clock_sent == 0,
            !r.reported_latency,
            r.connected == connected,
            r.published is None,
    {
        Looping {
            queued: Vec::new(),
            loading: false,
            pending_save: None,
            snapshots: Vec::new(),
            next_request: 0,
            clipping: Gathered::new(),
            xruns: Gathered::new(),
            missed_reports: DroppedEvents::new(),
            clock_sent: 0,
            reported_latency: false,
            connected,
            published: None,
        }
    }

    /// Takes what the performer asked for behind everything that waits. `ready` says whether the
    /// loader's channel is empty: the engine commits a load in the same callback that empties it.
    pub fn take_work(&mut self, controller: &mut Controller, ready: bool)
        ensures
            final(self).queued@ == old(self).queued@ + old(controller)@.work,
            final(self).loading == (old(self).loading && !ready),
            final(controller)@ == (ControllerView { work: Seq::empty(), ..old(controller)@ }),
            *final(self) == (Looping {
                queued: final(self).queued,
                loading: final(self).loading,
                ..*old(self)
            }),
    {
        self.loading = self.loading && !ready;
        let mut work: Vec<Work> = controller.drain_work();
        self.queued.append(&mut work);
    }

    /// Puts what acting on a request asked for where the request stood, in front of anything the
    /// performer asked for after it.
    pub fn put_first(&mut self, controller: &mut Controller)
        ensures
            final(self).queued@ == old(controller)@.work + old(self).queued@,
            final(controller)@ == (ControllerView { work: Seq::empty(), ..old(controller)@ }),
            *final(self) == (Looping { queued: final(self).queued, ..*old(self) }),
    {
        let mut work: Vec<Work> = controller.drain_work();
        work.append(&mut self.queued);
        self.queued = work;
    }

    /// Asks the engine to publish its clips for a save, and starts the wait for them.
    ///
    /// Asked for ahead of whatever is waiting, so the snapshot sees the pads as they were when
    /// the save was asked for. One that never gets out expires on its deadline.
    pub fn begin_save(&mut self, addr: SlotAddr, controller: &Controller, now: Nanos)
        requires
            now <= LONGEST,
        ensures
            final(self).next_request == (if old(self).next_request < u32::MAX {
                (old(self).next_request + 1) as u32
            } else {
                0
            }),
            final(self).snapshots@.len() == 0,
            final(self).queued@ == seq![
                Work::Command(Command::Snapshot { request: final(self).next_request }),
            ] + old(self).queued@,
            final(self).pending_save matches Some(save) && save.deadline == now + SAVE_TIMEOUT
                && save.request == final(self).next_request && save.addr == addr && records(
                save.settings,
                controller@,
            ),
            *final(self) == (Looping {
                next_request: final(self).next_request,
                snapshots: final(self).snapshots,
                queued: final(self).queued,
                pending_save: final(self).pending_save,
                ..*old(self)
            }),
    {
        self.next_request = self.next_request.wrapping_add(1);
        self.snapshots.clear();
        let request: u32 = self.next_request;
        self.queued.insert(0, Work::Command(Command::Snapshot { request }));
        assert(self.queued@ =~= seq![Work::Command(Command::Snapshot { request })] + old(
            self,
        ).queued@);
        self.pending_save = Some(
            PendingSave {
                deadline: now + SAVE_TIMEOUT,
                request,
                addr,
                settings: save_settings(controller),
            },
        );
    }

    /// Holds everything back until the engine has taken a load. A load that never reached the
    /// channel is let go of on the next pass.
    pub fn begin_load(&mut self)
        ensures
            *final(self) == (Looping { loading: true, ..*old(self) }),
    {
        self.loading = true;
    }

    /// Asks the engine to report every pad again if a report a resync repairs was lost. Returns
    /// whether any was lost at all.
    ///
    /// Queued rather than sent: a resync answers with the engine's own state, and sending one in
    /// front of a load would answer with the session the load is replacing.
    pub fn resync_after_loss(&mut self, dropped: DroppedEvents) -> (r: bool)
        ensures
            r == (dropped@ != old(self).missed_reports@),
            final(self).missed_reports@ == dropped@,
            final(self).queued@ == asking_again(
                old(self).queued@,
                dropped@,
                old(self).missed_reports@,
            ),
            *final(self) == (Looping {
                queued: final(self).queued,
                missed_reports: final(self).missed_reports,
                ..*old(self)
            }),
    {
        if dropped.same(&self.missed_reports) {
            return false;
        }
        if dropped.needs_resync(&self.missed_reports) {
            self.queued.push(Work::Command(Command::Resync));
        }
        self.missed_reports = dropped;
        true
    }
}

/// What a pass came to, for the caller to act on.
#[derive(Debug)]
pub struct Settled {
    /// Clock pulses the surface has not had.
    pub ticks: u32,
    /// Samples held at full scale, if it is time to mention them.
    pub clipped: Option<u64>,
    /// Frames of capture that came up short, if it is time to mention them.
    pub short: Option<u64>,
    /// Which reports were lost, if any were since the last pass.
    pub lost: Option<String>,
    /// What became of the save that was waiting.
    pub outcome: SaveOutcome,
}

/// What gathering a little more comes to, and what is left gathered.
pub open spec fn gathered(before: Gathered, more: u64, now: Nanos, every: Nanos) -> (
    Option<u64>,
    Gathered,
) {
    if before.with(more) > 0 && passed(now, before.last) >= every {
        (Some(before.with(more)), Gathered { count: 0, last: now })
    } else {
        (None, Gathered { count: before.with(more), ..before })
    }
}

/// The queue with everything asked for again if a report that a resync repairs was lost.
pub open spec fn asking_again(queued: Seq<Work>, dropped: Seq<u64>, seen: Seq<u64>) -> Seq<Work> {
    if exists|i: int| 0 <= i < 16 && dropped[i] > seen[i] && (#[trigger] kind_at(i)).replayed() {
        queued.push(Work::Command(Command::Resync))
    } else {
        queued
    }
}

impl<S> Looping<S> {
    /// Begins a pass: what the performer did reaches the controller, what the engine finished
    /// with goes back, and what is asked for joins the queue.
    ///
    /// Storage that was lent to the engine comes back to be dropped.
    pub fn begin_pass(
        &mut self,
        controller: &mut Controller,
        gestures: &Vec<SurfaceEvent>,
        housekeeping: &mut Housekeeping<S>,
        now: Nanos,
    )
        requires
            now <= LONGEST,
            old(housekeeping).recycler.wf(),
        ensures
            ({
                let v = gestured(
                    old(controller)@,
                    gestures@,
                    now,
                    gestures@.len() as int,
                ).ticks(now);
                &&& final(controller)@ == (ControllerView { work: Seq::empty(), ..v })
                &&& final(self).queued@ == old(self).queued@ + v.work
            }),
            exists|room: usize|
                room <= old(housekeeping).loader.limit() && room + old(housekeeping).loader@.len()
                    >= old(housekeeping).loader.limit() && final(self).loading == (old(self).loading
                    && !#[trigger] fits(room as int)),
            *final(self) == (Looping {
                queued: final(self).queued,
                loading: final(self).loading,
                ..*old(self)
            }),
            final(housekeeping).recycler.wf(),
            exists|mid: Recycler<S>, alone: Seq<bool>, room: Seq<bool>|
                #![trigger old(housekeeping).recycler.sorted_out(&mid, alone, room)]
                old(housekeeping).recycler.took_in(&mid)
                    && old(housekeeping).recycler.sorted_out(&mid, alone, room) && mid.gave_back(
                    &final(housekeeping).recycler,
                ),
            final(housekeeping).loader == old(housekeeping).loader,
            final(housekeeping).snapshots == old(housekeeping).snapshots,
    {
        take_gestures(gestures, controller, now);
        // Returns clips the engine finished with while something else was reading them.
        housekeeping.recycler.run();
        let ghost mid = housekeeping.recycler;
        proof {
            let (alone, room) = choose|alone: Seq<bool>, room: Seq<bool>| #[trigger]
                old(housekeeping).recycler.sorted_out(&mid, alone, room);
            assert(old(housekeeping).recycler.sorted_out(&mid, alone, room));
        }
        housekeeping.recycler.take_borrowed();
        let ready: bool = housekeeping.loader.ready();
        self.take_work(controller, ready);
    }

    /// Ends a pass: what the engine reported reaches the controller, anything lost is asked for
    /// again, and the save that is waiting is settled. Its clips stay until the caller has
    /// written them.
    pub fn end_pass(
        &mut self,
        controller: &mut Controller,
        reports: &Vec<Event>,
        dropped: DroppedEvents,
        arrived: Vec<Snapshot<S>>,
        now: Nanos,
    ) -> (r: Settled)
        requires
            now <= LONGEST,
        ensures
            final(controller)@ == informed(
                old(controller)@,
                reports@,
                now,
                reports@.len() as int,
            ),
            final(self).missed_reports@ == dropped@,
            final(self).queued@ == asking_again(
                old(self).queued@,
                dropped@,
                old(self).missed_reports@,
            ),
            r.lost is Some <==> dropped@ != old(self).missed_reports@,
            r.lost is Some ==> r.lost->Some_0@ == lost_texts(
                dropped_since(dropped@, old(self).missed_reports@, 16),
                dropped_since(dropped@, old(self).missed_reports@, 16).len() as int,
            ),
            ({
                let drained = added_up(reports@, reports@.len() as int);
                &&& (r.clipped, final(self).clipping) == gathered(
                    old(self).clipping,
                    drained.clipped as u64,
                    now,
                    CLIP_REPORT_EVERY,
                )
                &&& (r.short, final(self).xruns) == gathered(
                    old(self).xruns,
                    drained.short_frames,
                    now,
                    XRUN_REPORT_EVERY,
                )
                &&& (r.ticks, final(self).clock_sent) == clock_due(
                    drained.clock_total,
                    old(self).clock_sent,
                )
                &&& (final(self).pending_save, r.outcome) == save_resolved(
                    old(self).pending_save,
                    drained.answered,
                    now,
                )
            }),
            final(self).snapshots@ == (match old(self).pending_save {
                Some(save) => old(self).snapshots@ + answering(
                    arrived@,
                    save.request,
                    arrived@.len() as int,
                ),
                None => old(self).snapshots@,
            }),
            *final(self) == (Looping {
                missed_reports: final(self).missed_reports,
                queued: final(self).queued,
                clipping: final(self).clipping,
                xruns: final(self).xruns,
                clock_sent: final(self).clock_sent,
                pending_save: final(self).pending_save,
                snapshots: final(self).snapshots,
                ..*old(self)
            }),
    {
        let drained: Drained = drain_engine(reports, controller, now);
        // After draining, so the replay it asks for has somewhere to go.
        let seen: DroppedEvents = self.missed_reports;
        let lost: Option<String> = if self.resync_after_loss(dropped) {
            Some(lost_report(&dropped, &seen))
        } else {
            None
        };
        let clipped: Option<u64> = self.clipping.note(
            drained.clipped as u64,
            now,
            CLIP_REPORT_EVERY,
        );
        let short: Option<u64> = self.xruns.note(drained.short_frames, now, XRUN_REPORT_EVERY);
        let (ticks, sent) = forward_clock(drained.clock_total, self.clock_sent);
        self.clock_sent = sent;
        collect_snapshots(arrived, &self.pending_save, &mut self.snapshots);
        let outcome: SaveOutcome = resolve_save(&mut self.pending_save, drained.answered, now);
        Settled { ticks, clipped, short, lost, outcome }
    }
}

/// What to show: any frame first, then any text. Text takes the grid over, so nothing more is
/// shown until it finishes.
pub fn repaint(controller: &mut Controller) -> (r: (Option<LedFrame>, Option<TextUpdate>))
    ensures
        ({
            let v = old(controller)@.cuts_text();
            let painted = if v.has_frame() {
                v.painted()
            } else {
                v
            };
            &&& r.0 is Some <==> v.has_frame()
            &&& r.0 is Some ==> r.0->Some_0@ == marked(
                painted,
                pictured(painted, old(controller)@.page()),
            )
            &&& text_view(r.1) == painted.text
            &&& final(controller)@ == painted.takes_text()
        }),
{
    let frame: Option<LedFrame> = controller.take_frame();
    let text: Option<TextUpdate> = controller.take_text();
    (frame, text)
}

/// Handing a queue over loses nothing and keeps its order: what went out, the request that
/// surfaced and what still waits are together what there was.
pub proof fn handing_over_keeps_order(
    queued: (Seq<Work>, Seq<Work>),
    loading: bool,
    sent: (Seq<Command>, Seq<Command>),
    count: int,
    surfaced: Option<Request>,
)
    requires
        hands_over(queued, loading, sent, count, surfaced),
    ensures
        ({
            let out = sent.1.skip(sent.0.len() as int).map_values(
                |command: Command| Work::Command(command),
            );
            let asked = match surfaced {
                Some(request) => seq![Work::Request(request)],
                None => Seq::empty(),
            };
            queued.0 == out + asked + queued.1
        }),
        loading ==> queued.1 == queued.0 && sent.1 == sent.0,
{
    let out = sent.1.skip(sent.0.len() as int).map_values(
        |command: Command| Work::Command(command),
    );
    let asked = match surfaced {
        Some(request) => seq![Work::Request(request)],
        None => Seq::empty(),
    };
    assert(sent.1.skip(sent.0.len() as int) =~= only_commands(queued.0.take(count)));
    assert forall|i: int| 0 <= i < count implies out[i] == queued.0[i] by {
        assert(queued.0.take(count)[i] is Command);
    }
    assert(queued.0 =~= out + asked + queued.1);
    if loading {
        assert(queued.1 =~= queued.0);
        assert(sent.1 =~= sent.0);
    }
}

/// An answer that arrived settles the save it belongs to whatever the time is, and one that
/// belongs to another save never does.
pub proof fn an_answer_beats_the_deadline(
    save: PendingSave,
    request: u32,
    clips: u32,
    expected: u32,
    now: Nanos,
)
    ensures
        ({
            let (left, outcome) = save_resolved(Some(save), Some((request, clips, expected)), now);
            &&& request == save.request ==> left is None && outcome == SaveOutcome::Answered(
                Answered { addr: save.addr, settings: save.settings, clips, expected },
            )
            &&& request != save.request ==> !(outcome is Answered)
        }),
{
}

/// What went wrong is a warning, and a finished take is for information. What the grid shows
/// already, or what comes too often, is not mentioned.
pub proof fn what_went_wrong_is_a_warning(event: Event)
    ensures
        (worth_knowing(event) matches Some(notice) && notice.0) <==> event is RecordingRefused
            || event is RecordBufferLow || event is LoadRefused || event is TempoRejected
            || event is TimeSignatureRejected,
        (worth_knowing(event) matches Some(notice) && !notice.0) <==> event is ClipRecorded,
{
}

} // verus!
