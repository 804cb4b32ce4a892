//! Reports from the realtime side. `Copy` and allocation-free.

use vstd::prelude::*;

use crate::ids::{ClipId, SlotAddr};
use crate::slot::SlotState;
use crate::time::{Frames, Tempo};

verus! {

/// Something the realtime side observed.
#[derive(Debug, Clone, Copy, PartialEq, Eq, Structural)]
pub enum Event {
    /// A slot moved to a new state.
    SlotChanged {
        /// Which pad.
        addr: SlotAddr,
        /// Its new state.
        state: SlotState,
    },
    /// The transport crossed a bar line.
    Bar {
        /// Bar index from the transport origin.
        bar: u64,
    },
    /// MIDI clock ticks have passed.
    Clock {
        /// How many the transport has produced since the engine was built.
        ///
        /// Never goes backwards, and a rewind produces none. Send on the difference from
        /// the last total taken.
        total: u64,
    },
    /// The transport crossed a beat.
    Beat {
        /// Bar index from the transport origin.
        bar: u64,
        /// Beat index within the bar, zero-based.
        beat: u32,
    },
    /// A recording was sealed into a clip.
    ClipRecorded {
        /// Which pad holds it.
        addr: SlotAddr,
        /// The new clip.
        clip: ClipId,
        /// Its length. Always a whole number of bars.
        len: Frames,
    },
    /// A clip is no longer referenced by any slot.
    ClipReleased {
        /// The clip that was let go.
        clip: ClipId,
    },
    /// The tempo the transport is running at.
    ///
    /// Sent whenever it is set or refused, and on a resync.
    Tempo {
        /// Beats per minute.
        bpm: Tempo,
    },
    /// The time signature the transport is running at.
    ///
    /// Sent whenever it is set, and on a resync.
    TimeSignature {
        /// Beats in one bar.
        beats_per_bar: u32,
        /// Note value that gets the beat.
        beat_unit: u32,
    },
    /// A take produced no clip, and the pad is left empty.
    ///
    /// Either it never started for want of storage, or it ran out part way and was
    /// discarded.
    RecordingRefused {
        /// Which pad was armed.
        addr: SlotAddr,
    },
    /// A recording could not be given storage for every frame it has covered.
    ///
    /// It is ended at the last whole bar it holds. Sent once per take.
    RecordBufferLow {
        /// Which pad is recording.
        addr: SlotAddr,
    },
    /// The mix went past full scale and was held at the limit.
    Clipped {
        /// How many samples were held.
        samples: u32,
    },
    /// Captured input was unavailable; silence was substituted.
    Xrun {
        /// How many frames were lost.
        frames: u64,
    },
    /// A tempo change was refused because clips already exist.
    TempoRejected,
    /// A time signature change was refused because clips already exist.
    TimeSignatureRejected,
    /// A load held more audio than the pool allows, and was refused whole.
    LoadRefused {
        /// Segments the session needs.
        wanted: u32,
        /// Segments the pool holds.
        allowed: u32,
    },
    /// Every pad holding a clip has been published. Sent even when none did.
    SnapshotComplete {
        /// Which request this answers.
        request: u32,
        /// How many pads were published and fit.
        clips: u32,
        /// How many pads there were to publish. More than `clips` means some were lost.
        expected: u32,
    },
}

/// Which report an [`Event`] is, without its payload.
#[derive(Debug, Clone, Copy, PartialEq, Eq, Hash, Structural)]
pub enum EventKind {
    /// [`Event::SlotChanged`].
    SlotChanged,
    /// [`Event::Bar`].
    Bar,
    /// [`Event::Clock`].
    Clock,
    /// [`Event::Beat`].
    Beat,
    /// [`Event::ClipRecorded`].
    ClipRecorded,
    /// [`Event::ClipReleased`].
    ClipReleased,
    /// [`Event::Tempo`].
    Tempo,
    /// [`Event::TimeSignature`].
    TimeSignature,
    /// [`Event::RecordingRefused`].
    RecordingRefused,
    /// [`Event::RecordBufferLow`].
    RecordBufferLow,
    /// [`Event::Clipped`].
    Clipped,
    /// [`Event::Xrun`].
    Xrun,
    /// [`Event::TempoRejected`].
    TempoRejected,
    /// [`Event::TimeSignatureRejected`].
    TimeSignatureRejected,
    /// [`Event::LoadRefused`].
    LoadRefused,
    /// [`Event::SnapshotComplete`].
    SnapshotComplete,
}

impl EventKind {
    /// How many kinds there are.
    pub const COUNT: usize = 16;

    /// Its place in a per-kind count.
    pub open spec fn place(self) -> int {
        match self {
            EventKind::SlotChanged => 0,
            EventKind::Bar => 1,
            EventKind::Clock => 2,
            EventKind::Beat => 3,
            EventKind::ClipRecorded => 4,
            EventKind::ClipReleased => 5,
            EventKind::Tempo => 6,
            EventKind::TimeSignature => 7,
            EventKind::RecordingRefused => 8,
            EventKind::RecordBufferLow => 9,
            EventKind::Clipped => 10,
            EventKind::Xrun => 11,
            EventKind::TempoRejected => 12,
            EventKind::TimeSignatureRejected => 13,
            EventKind::LoadRefused => 14,
            EventKind::SnapshotComplete => 15,
        }
    }

    /// Every kind, in the order they index a per-kind count.
    pub fn all() -> (r: [EventKind; 16])
        ensures
            forall|i: int| 0 <= i < 16 ==> (#[trigger] r@[i]).place() == i,
    {
        [
            EventKind::SlotChanged,
            EventKind::Bar,
            EventKind::Clock,
            EventKind::Beat,
            EventKind::ClipRecorded,
            EventKind::ClipReleased,
            EventKind::Tempo,
            EventKind::TimeSignature,
            EventKind::RecordingRefused,
            EventKind::RecordBufferLow,
            EventKind::Clipped,
            EventKind::Xrun,
            EventKind::TempoRejected,
            EventKind::TimeSignatureRejected,
            EventKind::LoadRefused,
            EventKind::SnapshotComplete,
        ]
    }

    /// Its place in a per-kind count.
    pub fn index(self) -> (r: usize)
        ensures
            r == self.place(),
            r < Self::COUNT,
    {
        match self {
            EventKind::SlotChanged => 0,
            EventKind::Bar => 1,
            EventKind::Clock => 2,
            EventKind::Beat => 3,
            EventKind::ClipRecorded => 4,
            EventKind::ClipReleased => 5,
            EventKind::Tempo => 6,
            EventKind::TimeSignature => 7,
            EventKind::RecordingRefused => 8,
            EventKind::RecordBufferLow => 9,
            EventKind::Clipped => 10,
            EventKind::Xrun => 11,
            EventKind::TempoRejected => 12,
            EventKind::TimeSignatureRejected => 13,
            EventKind::LoadRefused => 14,
            EventKind::SnapshotComplete => 15,
        }
    }

    /// Whether a resync puts a lost one right.
    pub open spec fn replayed(self) -> bool {
        self is SlotChanged || self is Tempo || self is TempoRejected || self is TimeSignature
            || self is TimeSignatureRejected
    }

    /// Whether [`crate::command::Command::Resync`] puts a lost one right.
    ///
    /// A resync republishes every pad's state and the tempo and signature the transport is
    /// actually running at. The rest are transient or carry their own recovery.
    pub fn is_replayed(self) -> (r: bool)
        ensures
            r == self.replayed(),
    {
        matches!(
            self,
            EventKind::SlotChanged
                | EventKind::Tempo
                | EventKind::TempoRejected
                | EventKind::TimeSignature
                | EventKind::TimeSignatureRejected
        )
    }

    /// What one of these is called.
    pub open spec fn called(self) -> Seq<char> {
        match self {
            EventKind::SlotChanged => "slot change"@,
            EventKind::Bar => "bar"@,
            EventKind::Clock => "clock tick"@,
            EventKind::Beat => "beat"@,
            EventKind::ClipRecorded => "recording"@,
            EventKind::ClipReleased => "clip release"@,
            EventKind::Tempo => "tempo report"@,
            EventKind::TimeSignature => "time signature report"@,
            EventKind::RecordingRefused => "recording refusal"@,
            EventKind::RecordBufferLow => "buffer warning"@,
            EventKind::Clipped => "clipping report"@,
            EventKind::Xrun => "short capture report"@,
            EventKind::TempoRejected => "tempo refusal"@,
            EventKind::TimeSignatureRejected => "time signature refusal"@,
            EventKind::LoadRefused => "load refusal"@,
            EventKind::SnapshotComplete => "snapshot completion"@,
        }
    }

    /// What to call one of these when saying which reports were lost.
    ///
    /// Singular, and takes a plain `s` in the plural.
    pub fn name(self) -> (r: &'static str)
        ensures
            r@ == self.called(),
    {
        match self {
            EventKind::SlotChanged => "slot change",
            EventKind::Bar => "bar",
            EventKind::Clock => "clock tick",
            EventKind::Beat => "beat",
            EventKind::ClipRecorded => "recording",
            EventKind::ClipReleased => "clip release",
            EventKind::Tempo => "tempo report",
            EventKind::TimeSignature => "time signature report",
            EventKind::RecordingRefused => "recording refusal",
            EventKind::RecordBufferLow => "buffer warning",
            EventKind::Clipped => "clipping report",
            EventKind::Xrun => "short capture report",
            EventKind::TempoRejected => "tempo refusal",
            EventKind::TimeSignatureRejected => "time signature refusal",
            EventKind::LoadRefused => "load refusal",
            EventKind::SnapshotComplete => "snapshot completion",
        }
    }
}

impl Event {
    /// Which report this is.
    pub open spec fn sort(self) -> EventKind {
        match self {
            Event::SlotChanged { addr: _, state: _ } => EventKind::SlotChanged,
            Event::Bar { bar: _ } => EventKind::Bar,
            Event::Clock { total: _ } => EventKind::Clock,
            Event::Beat { bar: _, beat: _ } => EventKind::Beat,
            Event::ClipRecorded { addr: _, clip: _, len: _ } => EventKind::ClipRecorded,
            Event::ClipReleased { clip: _ } => EventKind::ClipReleased,
            Event::Tempo { bpm: _ } => EventKind::Tempo,
            Event::TimeSignature { beats_per_bar: _, beat_unit: _ } => EventKind::TimeSignature,
            Event::RecordingRefused { addr: _ } => EventKind::RecordingRefused,
            Event::RecordBufferLow { addr: _ } => EventKind::RecordBufferLow,
            Event::Clipped { samples: _ } => EventKind::Clipped,
            Event::Xrun { frames: _ } => EventKind::Xrun,
            Event::TempoRejected => EventKind::TempoRejected,
            Event::TimeSignatureRejected => EventKind::TimeSignatureRejected,
            Event::LoadRefused { wanted: _, allowed: _ } => EventKind::LoadRefused,
            Event::SnapshotComplete { request: _, clips: _, expected: _ } => EventKind::SnapshotComplete,
        }
    }

    /// Which report this is.
    pub fn kind(&self) -> (r: EventKind)
        ensures
            r == self.sort(),
    {
        match self {
            Event::SlotChanged { .. } => EventKind::SlotChanged,
            Event::Bar { .. } => EventKind::Bar,
            Event::Clock { .. } => EventKind::Clock,
            Event::Beat { .. } => EventKind::Beat,
            Event::ClipRecorded { .. } => EventKind::ClipRecorded,
            Event::ClipReleased { .. } => EventKind::ClipReleased,
            Event::Tempo { .. } => EventKind::Tempo,
            Event::TimeSignature { .. } => EventKind::TimeSignature,
            Event::RecordingRefused { .. } => EventKind::RecordingRefused,
            Event::RecordBufferLow { .. } => EventKind::RecordBufferLow,
            Event::Clipped { .. } => EventKind::Clipped,
            Event::Xrun { .. } => EventKind::Xrun,
            Event::TempoRejected => EventKind::TempoRejected,
            Event::TimeSignatureRejected => EventKind::TimeSignatureRejected,
            Event::LoadRefused { .. } => EventKind::LoadRefused,
            Event::SnapshotComplete { .. } => EventKind::SnapshotComplete,
        }
    }
}

/// No two kinds share a place in a per-kind count.
pub proof fn kinds_have_their_own_place(a: EventKind, b: EventKind)
    requires
        a.place() == b.place(),
    ensures
        a == b,
{
}

/// A destination for reports.
pub trait EventSink {
    /// Everything reported so far, in order.
    spec fn log(&self) -> Seq<Event>;

    /// Records one event.
    fn event(&mut self, event: Event)
        ensures
            final(self).log() == old(self).log().push(event),
    ;
}

impl EventSink for Vec<Event> {
    open spec fn log(&self) -> Seq<Event> {
        self@
    }

    fn event(&mut self, event: Event) {
        self.push(event);
    }
}

/// Whether one log is another with more reports after it.
pub open spec fn grown(before: Seq<Event>, after: Seq<Event>) -> bool {
    before.is_prefix_of(after)
}

/// The reports of a log that came after an earlier state of it.
pub open spec fn since(before: Seq<Event>, after: Seq<Event>) -> Seq<Event> {
    after.skip(before.len() as int)
}

/// Nothing came after a log itself, and one report is one report.
pub proof fn since_push(before: Seq<Event>, event: Event)
    ensures
        since(before, before) == Seq::<Event>::empty(),
        grown(before, before),
        since(before, before.push(event)) == seq![event],
        grown(before, before.push(event)),
{
    assert(since(before, before) =~= Seq::empty());
    assert(since(before, before.push(event)) =~= seq![event]);
}

/// Reports add up along the way.
pub proof fn since_adds(first: Seq<Event>, second: Seq<Event>, third: Seq<Event>)
    requires
        grown(first, second),
        grown(second, third),
    ensures
        grown(first, third),
        since(first, third) == since(first, second) + since(second, third),
{
    assert(since(first, third) =~= since(first, second) + since(second, third));
}

/// Every report is counted as what it is.
pub proof fn reports_are_of_their_kind(event: Event)
    ensures
        event is SlotChanged <==> event.sort() is SlotChanged,
        event is Bar <==> event.sort() is Bar,
        event is Clock <==> event.sort() is Clock,
        event is Beat <==> event.sort() is Beat,
        event is ClipRecorded <==> event.sort() is ClipRecorded,
        event is ClipReleased <==> event.sort() is ClipReleased,
        event is Tempo <==> event.sort() is Tempo,
        event is TimeSignature <==> event.sort() is TimeSignature,
        event is RecordingRefused <==> event.sort() is RecordingRefused,
        event is RecordBufferLow <==> event.sort() is RecordBufferLow,
        event is Clipped <==> event.sort() is Clipped,
        event is Xrun <==> event.sort() is Xrun,
        event is TempoRejected <==> event.sort() is TempoRejected,
        event is TimeSignatureRejected <==> event.sort() is TimeSignatureRejected,
        event is LoadRefused <==> event.sort() is LoadRefused,
        event is SnapshotComplete <==> event.sort() is SnapshotComplete,
        0 <= event.sort().place() < 16,
{
}

} // verus!
