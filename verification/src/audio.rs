//! Everything in the engine that owns audio memory.

use std::sync::Arc;

use vstd::prelude::*;

use crate::clip::{
    constantly, fills, held, picked, segments_for, segments_needed, BufferView, Clip, ClipView,
    PoolView, SegmentPool,
};
use crate::event::{grown, since, Event, EventSink};
use crate::grid::BarGrid;
use crate::ids::{pad_bit, ClipId, LaunchMode, PadMask, SlotAddr, TrackInput, PAD_COUNT};
use crate::load::LoadMessage;
use crate::readers::{sole, Readers};
use crate::recycle::{Retirement, SLOTS};
use crate::shared::{empty_clip, lend_clip, seal_take, store_run};
use crate::slot::Effect;
use crate::snapshot::{Snapshot, SnapshotWriter};
use crate::time::Frames;

verus! {

/// Capture in progress. The audio goes straight into the clip the pad will hold.
#[derive(Debug, Clone, Copy, PartialEq, Eq, Structural)]
pub struct Recording {
    /// Frames of transport elapsed since capture began, written or not.
    pub frames: u64,
    /// Where capture began.
    pub started_at: Frames,
    /// Frames of the loop backed by storage.
    pub written: u64,
    /// The input this take is capturing, fixed when it began.
    pub input: TrackInput,
    /// Whether the segment pool ran dry part way through.
    pub starved: bool,
    /// Frames of tail backed by storage.
    pub tail_written: u64,
    /// Frames to keep capturing to once the loop itself is sealed.
    pub tail_until: Option<u64>,
}

/// One pad's worth of a load that has not been put in place yet.
#[derive(Debug)]
pub struct StagedClip<S> {
    pub(crate) clip: Arc<Clip<S>>,
    pub(crate) playing: bool,
    pub(crate) launch_anchor: Option<Frames>,
}

/// What is staged for a pad, as mathematical values.
#[verifier::ext_equal]
pub struct StagedView<S> {
    /// The clip.
    pub clip: ClipView<S>,
    /// Whether it is to sound.
    pub playing: bool,
    /// Where it was launched.
    pub launch_anchor: Option<Frames>,
}

/// What is staged for a pad, if anything.
pub open(crate) spec fn staged_view<S>(staged: Option<StagedClip<S>>) -> Option<StagedView<S>> {
    match staged {
        Some(staged) => Some(
            StagedView {
                clip: staged.clip@,
                playing: staged.playing,
                launch_anchor: staged.launch_anchor,
            },
        ),
        None => None,
    }
}

/// What a pad's clip holds, if it has one.
pub open spec fn clip_view<S>(clip: Option<Arc<Clip<S>>>) -> Option<ClipView<S>> {
    match clip {
        Some(clip) => Some(clip@),
        None => None,
    }
}

/// What each clip of a list holds.
pub open spec fn clip_views<S>(clips: Seq<Arc<Clip<S>>>) -> Seq<ClipView<S>> {
    clips.map_values(|clip: Arc<Clip<S>>| clip@)
}

/// Everything that owns audio memory.
#[verifier::reject_recursive_types(S)]
pub struct Audio<S> {
    pub(crate) clips: Vec<Option<Arc<Clip<S>>>>,
    pub(crate) recordings: Vec<Option<Recording>>,
    /// Preallocated clips waiting to be recorded into.
    pub(crate) shells: Vec<Arc<Clip<S>>>,
    pub(crate) segments: SegmentPool<S>,
    pub(crate) retirement: Retirement<S>,
    pub(crate) snapshots: SnapshotWriter<S>,
    pub(crate) next_clip_id: ClipId,
    /// The round trip a sealed take is stamped as having started before.
    pub(crate) capture_offset: Frames,
    /// Frames in a bar, which is the shortest take.
    pub(crate) bar_frames: u64,
    /// Frames of capture kept past a loop, which is a bar less its final beat.
    pub(crate) tail_frames: u64,
    /// Which input each track records.
    pub(crate) inputs: [TrackInput; 8],
    /// Where each track's clips are anchored when launched.
    pub(crate) launch_modes: [LaunchMode; 8],
    /// Beats each track opens its loops from the tail for.
    pub(crate) pickups: [u8; 8],
    /// Where a launch put each pad's clip, for the pads whose track restarts them.
    pub(crate) anchors: Vec<Option<Frames>>,
    /// Pads whose capture could not be given storage, for the engine to put back. Several
    /// can be refused on one boundary.
    pub(crate) refused: PadMask,
    /// Whether a load has begun arriving and has not ended.
    pub(crate) receiving: bool,
    /// The grid the arriving session was recorded on.
    pub(crate) staged_grid: Option<BarGrid>,
    /// A load being assembled, put in place only once all of it has arrived.
    pub(crate) staged: Vec<Option<StagedClip<S>>>,
    /// Who else holds the clips.
    pub(crate) readers: Readers,
}

/// What the audio half of the engine holds, as mathematical values. The pads are counted
/// track by track.
#[verifier::ext_equal]
pub struct AudioView<S> {
    /// Each pad's clip.
    pub clips: Seq<Option<ClipView<S>>>,
    /// Each pad's capture in progress.
    pub recordings: Seq<Option<Recording>>,
    /// Clips waiting to be recorded into. The last one is used next.
    pub shells: Seq<ClipView<S>>,
    /// Free storage.
    pub pool: PoolView<S>,
    /// Every clip given up to the recycler so far.
    pub retired: Seq<ClipView<S>>,
    /// Everything published so far.
    pub published: Seq<Snapshot<S>>,
    /// How many snapshots did not fit so far.
    pub lost: int,
    /// The id the next take gets.
    pub next_clip_id: ClipId,
    /// The round trip takes are compensated for.
    pub capture_offset: Frames,
    /// Frames in a bar.
    pub bar_frames: u64,
    /// Frames of capture kept past a loop.
    pub tail_frames: u64,
    /// Which input each track records.
    pub inputs: Seq<TrackInput>,
    /// Where each track's clips are anchored when launched.
    pub launch_modes: Seq<LaunchMode>,
    /// Beats each track opens its loops from the tail for.
    pub pickups: Seq<u8>,
    /// Where a launch put each pad's clip.
    pub anchors: Seq<Option<Frames>>,
    /// Pads whose capture was refused.
    pub refused: PadMask,
    /// Whether a load is arriving.
    pub receiving: bool,
    /// The grid of the arriving session.
    pub staged_grid: Option<BarGrid>,
    /// What has arrived for each pad.
    pub staged: Seq<Option<StagedView<S>>>,
    /// Every clip that came back from the recycler so far.
    pub returned: Seq<ClipView<S>>,
    /// How often none was found to have come back.
    pub drained: int,
    /// Whether nobody else was reading a clip, each time it was asked.
    pub asked: Seq<bool>,
}

impl<S> View for Audio<S> {
    type V = AudioView<S>;

    open(crate) spec fn view(&self) -> AudioView<S> {
        AudioView {
            clips: self.clips@.map_values(|clip: Option<Arc<Clip<S>>>| clip_view(clip)),
            recordings: self.recordings@,
            shells: clip_views(self.shells@),
            pool: self.segments@,
            retired: clip_views(self.retirement@),
            published: self.snapshots@,
            lost: self.snapshots.lost(),
            next_clip_id: self.next_clip_id,
            capture_offset: self.capture_offset,
            bar_frames: self.bar_frames,
            tail_frames: self.tail_frames,
            inputs: self.inputs@,
            launch_modes: self.launch_modes@,
            pickups: self.pickups@,
            anchors: self.anchors@,
            refused: self.refused,
            receiving: self.receiving,
            staged_grid: self.staged_grid,
            staged: self.staged@.map_values(|staged: Option<StagedClip<S>>| staged_view(staged)),
            returned: clip_views(self.retirement.back()),
            drained: self.retirement.empty(),
            asked: self.readers@,
        }
    }
}

impl<S> AudioView<S> {
    /// There is one of everything per pad, all storage is of the width it says, and a take is
    /// captured into storage of the pool's own width.
    pub open spec fn wf(self) -> bool {
        &&& self.clips.len() == 64
        &&& self.recordings.len() == 64
        &&& self.anchors.len() == 64
        &&& self.staged.len() == 64
        &&& self.inputs.len() == 8
        &&& self.launch_modes.len() == 8
        &&& self.pickups.len() == 8
        &&& self.pool.wf()
        &&& self.pool.channels > 0
        &&& self.pool.reserved >= 0
        &&& forall|i: int|
            0 <= i < 64 && (#[trigger] self.clips[i]) is Some ==> self.clips[i]->Some_0.wf()
        &&& forall|i: int|
            0 <= i < 64 && (#[trigger] self.clips[i]) is Some && self.recordings[i] is Some
                ==> self.clips[i]->Some_0.channels == self.pool.channels
        &&& forall|i: int|
            0 <= i < self.shells.len() ==> (#[trigger] self.shells[i]).wf()
                && self.shells[i].channels == self.pool.channels
        &&& forall|i: int|
            0 <= i < 64 && (#[trigger] self.staged[i]) is Some ==> self.staged[i]->Some_0.clip.wf()
    }

    /// Storage a take is refused without.
    pub open spec fn shortest_take(self) -> int {
        segments_needed(self.bar_frames as int)
    }
}

/// A clip emptied for reuse.
pub open spec fn emptied<S>(clip: ClipView<S>) -> ClipView<S> {
    ClipView {
        buffer: BufferView {
            chunks: Seq::new(clip.buffer.chunks.len(), |i: int| None),
            ..clip.buffer
        },
        len: 0,
        recorded_at: 0,
        capture_offset: 0,
        tail: 0,
        ..clip
    }
}

/// The storage of a clip taken back into the pools.
pub open spec fn absorbed<S>(v: AudioView<S>, clip: ClipView<S>) -> AudioView<S> {
    AudioView {
        shells: v.shells.push(emptied(clip)),
        pool: PoolView {
            free: v.pool.free + held(clip.buffer.chunks, clip.buffer.chunks.len() as int),
            ..v.pool
        },
        ..v
    }
}

/// Whether a clip that is given up could go back into the pools: it was not lent, is of the
/// pools' width, and there is not one for every pad already.
pub open spec fn absorbable<S>(v: AudioView<S>, clip: ClipView<S>) -> bool {
    !clip.borrowed && v.shells.len() < 64 && clip.channels == v.pool.channels
}

/// A clip handed to the recycler.
pub open spec fn handed_over<S>(v: AudioView<S>, clip: ClipView<S>) -> AudioView<S> {
    AudioView { retired: v.retired.push(clip), ..v }
}

/// It was asked whether nobody else is reading a clip, and so answered.
pub open spec fn asking<S>(v: AudioView<S>, alone: bool) -> AudioView<S> {
    AudioView { asked: v.asked.push(alone), ..v }
}

/// A clip given up: it goes back into the pools where it could and nobody else is reading it,
/// and to the recycler otherwise.
pub open spec fn given_up<S>(v: AudioView<S>, clip: ClipView<S>, alone: bool) -> AudioView<S> {
    if !absorbable(v, clip) {
        handed_over(v, clip)
    } else if alone {
        absorbed(asking(v, alone), clip)
    } else {
        handed_over(asking(v, alone), clip)
    }
}

/// Giving a clip up, where `alone` says whether nobody else was found to be reading it. That
/// rests with the other threads.
pub open spec fn retires<S>(
    v: AudioView<S>,
    clip: ClipView<S>,
    alone: bool,
    w: AudioView<S>,
) -> bool {
    w == given_up(v, clip, alone)
}

/// Emptying a pad: its clip, if it has one, is given up.
pub open spec fn lets_go<S>(v: AudioView<S>, place: int, alone: bool, w: AudioView<S>) -> bool {
    let cut = AudioView { clips: v.clips.update(place, None), ..v };
    match v.clips[place] {
        Some(clip) => retires(cut, clip, alone, w),
        None => w == cut,
    }
}

/// Beginning a take: refused unless there is storage for a bar and a clip to record into.
pub open spec fn capture_started<S>(v: AudioView<S>, addr: SlotAddr, at: Frames) -> AudioView<S> {
    if v.pool.spare() < v.shortest_take() || v.shells.len() == 0 {
        AudioView { refused: v.refused | (1u64 << (addr.place() as u64)), ..v }
    } else {
        AudioView {
            clips: v.clips.update(addr.place(), Some(v.shells.last())),
            shells: v.shells.drop_last(),
            recordings: v.recordings.update(
                addr.place(),
                Some(
                    Recording {
                        frames: 0,
                        started_at: at,
                        written: 0,
                        input: v.inputs[addr.track.num()],
                        starved: false,
                        tail_written: 0,
                        tail_until: None,
                    },
                ),
            ),
            ..v
        }
    }
}

/// A difference of frames, or nothing.
pub open spec fn less(a: int, b: int) -> int {
    if a >= b {
        a - b
    } else {
        0
    }
}

/// A sum of frames held to what can be counted.
pub open spec fn plus(a: int, b: int) -> int {
    if a + b <= u64::MAX {
        a + b
    } else {
        u64::MAX as int
    }
}

/// A capture whose loop is complete, which carries on into the tail.
pub open spec fn tailing(recording: Recording, len: int, tail_frames: int) -> Recording {
    Recording {
        tail_written: less(recording.written as int, len) as u64,
        tail_until: Some(plus(len, tail_frames) as u64),
        ..recording
    }
}

/// A clip sealed as a take: its length is what was captured, and it is stamped as having
/// started before it did by the round trip.
pub open spec fn sealed<S>(clip: ClipView<S>, started_at: int, at: int, offset: int) -> ClipView<
    S,
> {
    ClipView {
        len: less(at, started_at),
        recorded_at: less(started_at, offset),
        capture_offset: offset,
        ..clip
    }
}

/// A take that was sealed, or could not be, is recorded: where it was, the next take gets the id
/// after its own.
pub open spec fn numbered<S>(v: AudioView<S>, clip: ClipId, done: bool) -> AudioView<S> {
    if done {
        AudioView { next_clip_id: ClipId(((clip.0 + 1) % 0x1_0000_0000) as u32), ..v }
    } else {
        v
    }
}

/// The report of a take, where it was sealed.
pub open spec fn take_report(addr: SlotAddr, clip: ClipId, len: Frames, done: bool) -> Seq<Event> {
    if done {
        seq![Event::ClipRecorded { addr, clip, len }]
    } else {
        Seq::empty()
    }
}

/// Sealing a take: its capture carries on into the tail, and where nobody else is found to be
/// reading its clip, the clip is sealed, numbered and reported. That rests with the other
/// threads. A capture that is in its tail already is left alone.
pub open spec fn capture_finished<S>(
    v: AudioView<S>,
    addr: SlotAddr,
    clip: ClipId,
    started_at: Frames,
    at: Frames,
    alone: bool,
    w: AudioView<S>,
    events: Seq<Event>,
) -> bool {
    let place = addr.place();
    let len = less(at.0 as int, started_at.0 as int);
    match v.recordings[place] {
        Some(recording) if recording.tail_until is None => {
            let mid = AudioView {
                recordings: v.recordings.update(
                    place,
                    Some(tailing(recording, len, v.tail_frames as int)),
                ),
                ..v
            };
            match v.clips[place] {
                Some(take) if alone => w == numbered(
                    AudioView {
                        clips: v.clips.update(
                            place,
                            Some(
                                sealed(
                                    take,
                                    started_at.0 as int,
                                    at.0 as int,
                                    v.capture_offset.0 as int,
                                ),
                            ),
                        ),
                        ..asking(mid, true)
                    },
                    clip,
                    true,
                ) && events == take_report(addr, clip, Frames(len as u64), true),
                Some(_) => w == asking(mid, false) && events == Seq::<Event>::empty(),
                None => w == mid && events == Seq::<Event>::empty(),
            }
        },
        _ => w == v && events == Seq::<Event>::empty(),
    }
}

/// Launching a clip: anchored where it was recorded, or at the launch where its track
/// restarts. The audio from before the take's first beat is not played as pre-roll.
pub open spec fn launched<S>(v: AudioView<S>, addr: SlotAddr, at: Frames) -> AudioView<S> {
    let offset = match v.clips[addr.place()] {
        Some(clip) => clip.capture_offset,
        None => 0,
    };
    AudioView {
        anchors: v.anchors.update(
            addr.place(),
            if v.launch_modes[addr.track.num()] is Restart {
                Some(Frames(less(at.0 as int, offset) as u64))
            } else {
                None
            },
        ),
        ..v
    }
}

/// What carrying out one piece of work does, and the reports it makes. Where it is for a clip,
/// `alone` says whether nobody else was found to be reading it.
pub open spec fn applied<S>(
    v: AudioView<S>,
    addr: SlotAddr,
    effect: Effect,
    alone: bool,
    w: AudioView<S>,
    events: Seq<Event>,
) -> bool {
    match effect {
        Effect::StartCapture { at } => w == capture_started(v, addr, at) && events == Seq::<
            Event,
        >::empty(),
        Effect::FinishCapture { clip, started_at, at } => capture_finished(
            v,
            addr,
            clip,
            started_at,
            at,
            alone,
            w,
            events,
        ),
        Effect::CancelCapture => lets_go(
            AudioView { recordings: v.recordings.update(addr.place(), None), ..v },
            addr.place(),
            alone,
            w,
        ) && events == Seq::<Event>::empty(),
        Effect::StartPlayback { clip: _, at } => w == launched(v, addr, at) && events == Seq::<
            Event,
        >::empty(),
        // Playback is otherwise a function of slot state and transport position, so there is
        // no voice to stop.
        Effect::StopPlayback { at: _ } => w == v && events == Seq::<Event>::empty(),
        Effect::ReleaseClip { clip } => lets_go(v, addr.place(), alone, w) && events
            == seq![Event::ClipReleased { clip }],
    }
}

/// What carrying out a list of work in order does, and the reports it makes.
pub open spec fn worked<S>(
    v: AudioView<S>,
    work: Seq<(SlotAddr, Effect)>,
    w: AudioView<S>,
    events: Seq<Event>,
) -> bool
    decreases work.len(),
{
    if work.len() == 0 {
        w == v && events == Seq::<Event>::empty()
    } else {
        exists|mid: AudioView<S>, count: int, alone: bool|
            #![trigger applied(mid, work.last().0, work.last().1, alone, w, events.skip(count))]
            0 <= count <= events.len() && worked(v, work.drop_last(), mid, events.take(count))
                && applied(mid, work.last().0, work.last().1, alone, w, events.skip(count))
    }
}

impl<S> Audio<S> {
    /// The way to the recycler.
    pub open(crate) spec fn way_out(&self) -> Retirement<S> {
        self.retirement
    }

    /// Whether clips were parked only where no room was found for them.
    pub open(crate) spec fn parks(&self, after: &Self) -> bool {
        parks_for_want_of_room(self.way_out(), after.way_out())
    }

    /// The pads' storage is sound, and nothing given up was ever dropped.
    pub open(crate) spec fn wf(&self) -> bool {
        self@.wf() && self.retirement.wf()
    }
}

impl<S: Copy> Audio<S> {
    /// Takes a clip back into the pool, or hands it over.
    ///
    /// Borrowed storage always goes back to whoever supplied it, so repeated loads cannot
    /// grow the engine's pools.
    pub(crate) fn retire(&mut self, clip: Arc<Clip<S>>)
        requires
            old(self).wf(),
            clip@.wf(),
        ensures
            final(self).wf(),
            old(self).parks(final(self)),
            exists|alone: bool| retires(old(self)@, clip@, alone, final(self)@),
    {
        let mut clip = clip;
        let ghost given = clip@;
        let mine: bool = !clip.borrowed && self.shells.len() < PAD_COUNT && clip.channels
            == self.segments.channels();
        let alone: bool = if mine {
            empty_clip(sole(&mut self.readers, &mut clip), &mut self.segments)
        } else {
            false
        };
        self.put_away(clip, alone);
        proof {
            if alone {
                assert(self@ == absorbed(asking(old(self)@, true), given));
            } else if mine {
                assert(self@ == handed_over(asking(old(self)@, false), given));
            } else {
                assert(self@ == handed_over(old(self)@, given));
            }
            assert(retires(old(self)@, given, alone, self@));
        }
    }

    /// Keeps a clip that was emptied for the next take, or hands it to the recycler.
    pub fn put_away(&mut self, clip: Arc<Clip<S>>, emptied: bool)
        requires
            old(self).wf(),
            clip@.wf(),
            emptied ==> clip@.channels == old(self)@.pool.channels,
        ensures
            final(self).wf(),
            old(self).parks(final(self)),
            final(self)@ == (if emptied {
                AudioView { shells: old(self)@.shells.push(clip@), ..old(self)@ }
            } else {
                AudioView { retired: old(self)@.retired.push(clip@), ..old(self)@ }
            }),
    {
        let ghost given = clip@;
        if emptied {
            self.shells.push(clip);
            assert(self@.shells =~= old(self)@.shells.push(given));
        } else {
            self.retirement.retire(clip);
            assert(self@.retired =~= old(self)@.retired.push(given));
        }
    }
}

/// A clip the recycler released taken back: it goes into the pools where nobody else is reading
/// it, and is dropped otherwise. One of another width was never the pools'.
pub open spec fn taken_back<S>(v: AudioView<S>, clip: ClipView<S>, alone: bool) -> AudioView<S> {
    let came = AudioView { returned: v.returned.push(clip), ..v };
    if clip.channels != v.pool.channels {
        AudioView { retired: v.retired.push(clip), ..came }
    } else if alone {
        absorbed(asking(came, true), clip)
    } else {
        asking(came, false)
    }
}

/// Taking back one clip the recycler released, where `alone` says whether nobody else was found
/// to be reading it. That rests with the other threads.
pub open spec fn takes_back<S>(
    v: AudioView<S>,
    clip: ClipView<S>,
    alone: bool,
    w: AudioView<S>,
) -> bool {
    w == taken_back(v, clip, alone)
}

/// Whether clips were parked only where no room was found for them.
pub open spec fn parks_for_want_of_room<S>(before: Retirement<S>, after: Retirement<S>) -> bool {
    &&& after.full() >= before.full()
    &&& after.full() == before.full() ==> after.kept() == before.kept()
}

/// The audio half before the last clip that came back did.
pub open spec fn before_last<S>(v: AudioView<S>) -> AudioView<S> {
    AudioView { returned: v.returned.drop_last(), ..v }
}

/// Taking back clips the recycler released, in order.
pub open spec fn takes_all_back<S>(v: AudioView<S>, clips: Seq<ClipView<S>>, w: AudioView<S>) -> bool
    decreases clips.len(),
{
    if clips.len() == 0 {
        w == v
    } else {
        exists|mid: AudioView<S>, alone: bool|
            takes_all_back(v, clips.drop_last(), mid) && #[trigger] takes_back(
                mid,
                clips.last(),
                alone,
                w,
            )
    }
}

/// The clips that came back from the recycler between two moments.
pub open spec fn came_back<S>(v: AudioView<S>, w: AudioView<S>) -> Seq<ClipView<S>> {
    w.returned.skip(v.returned.len() as int)
}

/// Taking back what the recycler released: until none was found to have come back, or as many as
/// can be on the way.
pub open spec fn reclaims<S>(v: AudioView<S>, w: AudioView<S>) -> bool {
    let clips = came_back(v, w);
    &&& clips.len() <= SLOTS
    &&& w.drained == (if clips.len() < SLOTS {
        v.drained + 1
    } else {
        v.drained
    })
    &&& takes_all_back(v, clips, AudioView { drained: v.drained, ..w })
}

impl<S: Copy> Audio<S> {
    /// Takes the clip off a pad.
    pub(crate) fn take_clip(&mut self, index: usize) -> (r: Option<Arc<Clip<S>>>)
        requires
            old(self).wf(),
            index < 64,
        ensures
            final(self).wf(),
            old(self).parks(final(self)),
            clip_view(r) == old(self)@.clips[index as int],
            r is Some ==> r->Some_0@.wf(),
            final(self)@ == (AudioView {
                clips: old(self)@.clips.update(index as int, None),
                ..old(self)@
            }),
    {
        assert(self@.clips[index as int] == clip_view(self.clips@[index as int]));
        let clip = self.clips[index].take();
        assert(self@.clips =~= old(self)@.clips.update(index as int, None));
        clip
    }

    /// Puts a clip on a pad.
    pub(crate) fn put_clip(&mut self, index: usize, clip: Arc<Clip<S>>)
        requires
            old(self).wf(),
            index < 64,
            clip@.wf(),
            old(self)@.recordings[index as int] is Some ==> clip@.channels == old(
                self,
            )@.pool.channels,
        ensures
            final(self).wf(),
            old(self).parks(final(self)),
            final(self)@ == (AudioView {
                clips: old(self)@.clips.update(index as int, Some(clip@)),
                ..old(self)@
            }),
    {
        let ghost given = clip@;
        self.clips.set(index, Some(clip));
        assert(self@.clips =~= old(self)@.clips.update(index as int, Some(given)));
    }

    /// Ends a pad's capture, if there is one.
    pub(crate) fn stop_recording(&mut self, index: usize)
        requires
            old(self).wf(),
            index < 64,
        ensures
            final(self).wf(),
            old(self).parks(final(self)),
            final(self)@ == (AudioView {
                recordings: old(self)@.recordings.update(index as int, None),
                ..old(self)@
            }),
    {
        self.recordings.set(index, None);
    }

    /// Marks a pad as refused.
    pub(crate) fn refuse(&mut self, addr: SlotAddr)
        requires
            old(self).wf(),
        ensures
            final(self).wf(),
            old(self).parks(final(self)),
            final(self)@ == (AudioView {
                refused: old(self)@.refused | (1u64 << (addr.place() as u64)),
                ..old(self)@
            }),
    {
        self.refused = self.refused | pad_bit(addr);
    }

    /// Gives up the clip on a pad, if there is one.
    pub(crate) fn let_go(&mut self, index: usize)
        requires
            old(self).wf(),
            index < 64,
        ensures
            final(self).wf(),
            old(self).parks(final(self)),
            exists|alone: bool| lets_go(old(self)@, index as int, alone, final(self)@),
    {
        match self.take_clip(index) {
            Some(held) => {
                let ghost clip = held@;
                let ghost cut = self@;
                self.retire(held);
                proof {
                    let alone = choose|alone: bool| retires(cut, clip, alone, self@);
                    assert(lets_go(old(self)@, index as int, alone, self@));
                }
            },
            None => {
                assert(lets_go(old(self)@, index as int, true, self@));
            },
        }
    }

    /// Carries out one piece of work.
    pub(crate) fn apply<E: EventSink>(&mut self, addr: SlotAddr, effect: Effect, sink: &mut E)
        requires
            old(self).wf(),
        ensures
            final(self).wf(),
            old(self).parks(final(self)),
            grown(old(sink).log(), final(sink).log()),
            exists|alone: bool|
                applied(
                    old(self)@,
                    addr,
                    effect,
                    alone,
                    final(self)@,
                    since(old(sink).log(), final(sink).log()),
                ),
    {
        let index: usize = addr.index();
        let track: usize = addr.track.index();
        let ghost reported = old(sink).log();
        let ghost v = self@;
        let ghost none = Seq::<Event>::empty();
        proof {
            assert(since(reported, sink.log()) =~= none);
        }
        match effect {
            Effect::StartCapture { at } => {
                // A take is at least one bar; less storage than that cannot produce a
                // clip.
                let needed: usize = segments_for(Frames(self.bar_frames));
                let available: usize = self.segments.available();
                proof {
                    assert(available < needed <==> self@.pool.spare() < self@.shortest_take());
                }
                if available < needed {
                    self.refused = self.refused | pad_bit(addr);
                    assert(applied(v, addr, effect, true, self@, since(reported, sink.log())));
                    return ;
                }
                // The shell pool holds one clip per pad, so this only comes up empty when
                // the recycler is behind. The slot is put back rather than left claiming
                // to hold a take it has nowhere to write.
                let ghost shells = self@.shells;
                let shell: Arc<Clip<S>> = match self.shells.pop() {
                    Some(shell) => shell,
                    None => {
                        assert(self@.shells =~= shells);
                        self.refused = self.refused | pad_bit(addr);
                        assert(applied(v, addr, effect, true, self@, since(reported, sink.log())));
                        return ;
                    },
                };
                assert(shells.last() == shell@);
                assert(self@.shells =~= shells.drop_last());
                let ghost mid = self@;
                self.clips.set(index, Some(shell));
                assert(self@.clips =~= mid.clips.update(index as int, Some(shells.last())));
                self.recordings.set(
                    index,
                    Some(
                        Recording {
                            frames: 0,
                            started_at: at,
                            written: 0,
                            input: self.inputs[track],
                            starved: false,
                            tail_written: 0,
                            tail_until: None,
                        },
                    ),
                );
                assert(self@ =~= capture_started(old(self)@, addr, at));
                assert(applied(v, addr, effect, true, self@, since(reported, sink.log())));
            },
            Effect::FinishCapture { clip, started_at, at } => {
                let len: Frames = at.saturating_sub(started_at);
                let recording: Recording = match self.recordings[index] {
                    Some(recording) => recording,
                    None => {
                        assert(applied(v, addr, effect, true, self@, since(reported, sink.log())));
                        return ;
                    },
                };
                if recording.tail_until.is_some() {
                    assert(applied(v, addr, effect, true, self@, since(reported, sink.log())));
                    return ;
                }
                // Capture carries on into the bar after the loop, and the recording is
                // dropped once it has. Anything already written past the loop is held
                // storage and counts as tail.
                self.recordings.set(
                    index,
                    Some(
                        Recording {
                            tail_written: recording.written.saturating_sub(len.0),
                            tail_until: Some(len.0.saturating_add(self.tail_frames)),
                            ..recording
                        },
                    ),
                );
                let ghost mid = self@;
                assert(mid.recordings =~= old(self)@.recordings.update(
                    index as int,
                    Some(
                        tailing(
                            recording,
                            less(at.0 as int, started_at.0 as int),
                            old(self)@.tail_frames as int,
                        ),
                    ),
                ));
                let mut held_clip: Arc<Clip<S>> = match self.take_clip(index) {
                    Some(held_clip) => held_clip,
                    None => {
                        assert(self@.clips =~= mid.clips);
                        assert(applied(v, addr, effect, true, self@, since(reported, sink.log())));
                        return ;
                    },
                };
                let offset: Frames = self.capture_offset;
                let done: bool = seal_take(
                    sole(&mut self.readers, &mut held_clip),
                    started_at,
                    at,
                    offset,
                );
                let ghost is = held_clip@;
                self.put_clip(index, held_clip);
                let ghost put = self@;
                self.record_take(addr, clip, len, done, sink);
                proof {
                    let events = since(reported, sink.log());
                    assert(events =~= take_report(addr, clip, len, done));
                    if done {
                        assert(put.clips =~= mid.clips.update(index as int, Some(is)));
                    } else {
                        assert(put.clips =~= mid.clips);
                    }
                    assert(applied(v, addr, effect, done, self@, events));
                }
            },
            Effect::CancelCapture => {
                self.stop_recording(index);
                let ghost cut = self@;
                self.let_go(index);
                proof {
                    let alone = choose|alone: bool| lets_go(cut, index as int, alone, self@);
                    assert(applied(v, addr, effect, alone, self@, since(reported, sink.log())));
                }
            },
            Effect::ReleaseClip { clip } => {
                self.let_go(index);
                sink.event(Event::ClipReleased { clip });
                proof {
                    let events = seq![Event::ClipReleased { clip }];
                    assert(since(reported, sink.log()) =~= events);
                    let alone = choose|alone: bool| lets_go(v, index as int, alone, self@);
                    assert(applied(v, addr, effect, alone, self@, since(reported, sink.log())));
                }
            },
            Effect::StartPlayback { at, .. } => {
                if !self.launch_modes[track].restarts() {
                    self.anchors.set(index, None);
                    assert(self@ =~= launched(old(self)@, addr, at));
                    assert(applied(v, addr, effect, true, self@, since(reported, sink.log())));
                    return ;
                }
                // Frame zero of the buffer holds audio from `capture_offset` before the
                // take's first beat, so anchoring on `at` would play that as pre-roll.
                assert(self@.clips[index as int] == clip_view(self.clips@[index as int]));
                let offset: Frames = match &self.clips[index] {
                    Some(clip) => clip.capture_offset(),
                    None => Frames(0),
                };
                self.anchors.set(index, Some(at.saturating_sub(offset)));
                assert(self@ =~= launched(old(self)@, addr, at));
                assert(applied(v, addr, effect, true, self@, since(reported, sink.log())));
            },
            Effect::StopPlayback { .. } => {
                assert(applied(v, addr, effect, true, self@, since(reported, sink.log())));
            },
        }
    }

    /// Numbers and reports a take, where it was sealed.
    pub fn record_take<E: EventSink>(
        &mut self,
        addr: SlotAddr,
        clip: ClipId,
        len: Frames,
        done: bool,
        sink: &mut E,
    )
        requires
            old(self).wf(),
        ensures
            final(self).wf(),
            old(self).parks(final(self)),
            final(self)@ == numbered(old(self)@, clip, done),
            final(sink).log() == old(sink).log() + take_report(addr, clip, len, done),
    {
        if done {
            self.next_clip_id = clip.next();
            sink.event(Event::ClipRecorded { addr, clip, len });
            assert(sink.log() =~= old(sink).log() + take_report(addr, clip, len, done));
        } else {
            assert(sink.log() =~= old(sink).log() + take_report(addr, clip, len, done));
        }
    }

    /// Carries out a list of work in order.
    pub(crate) fn carry_out<E: EventSink>(&mut self, work: &Vec<(SlotAddr, Effect)>, sink: &mut E)
        requires
            old(self).wf(),
        ensures
            final(self).wf(),
            old(self).parks(final(self)),
            grown(old(sink).log(), final(sink).log()),
            worked(
                old(self)@,
                work@,
                final(self)@,
                since(old(sink).log(), final(sink).log()),
            ),
    {
        let ghost reported = old(sink).log();
        let mut done: usize = 0;
        proof {
            assert(sink.log().skip(reported.len() as int) =~= Seq::empty());
            assert(work@.take(0) =~= Seq::empty());
        }
        while done < work.len()
            invariant
                done <= work@.len(),
                self.wf(),
                old(self).parks(self),
                reported == old(sink).log(),
                reported.is_prefix_of(sink.log()),
                worked(
                    old(self)@,
                    work@.take(done as int),
                    self@,
                    sink.log().skip(reported.len() as int),
                ),
            decreases work@.len() - done,
        {
            let ghost mid = self@;
            let ghost events = sink.log().skip(reported.len() as int);
            let ghost log = sink.log();
            let (addr, effect) = work[done];
            self.apply(addr, effect, sink);
            proof {
                let list = work@.take(done + 1);
                let all = sink.log().skip(reported.len() as int);
                assert(list.drop_last() =~= work@.take(done as int));
                assert(list.last() == work@[done as int]);
                let count = events.len() as int;
                assert(all.take(count) =~= events);
                assert(all.skip(count) =~= sink.log().skip(log.len() as int));
                assert(worked(old(self)@, list.drop_last(), mid, all.take(count)));
                let alone = choose|alone: bool|
                    applied(mid, addr, effect, alone, self@, since(log, sink.log()));
                assert(applied(mid, list.last().0, list.last().1, alone, self@, all.skip(count)));
                assert(worked(old(self)@, list, self@, all));
            }
            done += 1;
        }
        assert(work@.take(done as int) =~= work@);
    }

    /// Takes back one clip the recycler has released.
    pub(crate) fn take_back(&mut self, clip: Arc<Clip<S>>)
        requires
            old(self).wf(),
            clip@.wf(),
            old(self)@.returned.len() > 0,
            old(self)@.returned.last() == clip@,
        ensures
            final(self).wf(),
            old(self).parks(final(self)),
            exists|alone: bool|
                takes_back(before_last(old(self)@), clip@, alone, final(self)@),
    {
        let mut clip = clip;
        let ghost came = clip@;
        let ghost v = before_last(old(self)@);
        assert(v.returned.push(came) =~= old(self)@.returned);
        let mut alone: bool = true;
        if clip.channels == self.segments.channels() {
            alone = empty_clip(sole(&mut self.readers, &mut clip), &mut self.segments);
            if alone {
                self.put_away(clip, true);
            }
        } else {
            self.put_away(clip, false);
        }
        assert(takes_back(v, came, alone, self@));
    }

    /// Takes back anything the recycler has released, and hands over again what there was no
    /// room for before. Something stays parked only where there is still no room.
    pub(crate) fn reclaim(&mut self)
        requires
            old(self).wf(),
        ensures
            final(self).wf(),
            reclaims(old(self)@, final(self)@),
            final(self).retirement.full() >= old(self).retirement.full(),
            final(self).retirement.kept().len() > 0 ==> final(self).retirement.full() > old(
                self,
            ).retirement.full(),
    {
        self.retirement.retry();
        let ghost start = *self;
        let ghost v = old(self)@;
        assert(self@ == v);
        // The ring holds a bounded number, so a pass takes at most that many.
        let mut left: usize = SLOTS;
        proof {
            assert(came_back(v, self@) =~= Seq::empty());
        }
        while left > 0
            invariant
                self.wf(),
                v == old(self)@,
                start.retirement.full() == (if start.retirement.kept().len() > 0 {
                    old(self).retirement.full() + 1
                } else {
                    old(self).retirement.full()
                }),
                v.returned.is_prefix_of(self@.returned),
                came_back(v, self@).len() + left == SLOTS,
                takes_all_back(v, came_back(v, self@), self@),
                parks_for_want_of_room(start.retirement, self.retirement),
                self@.drained == v.drained,
            decreases left,
        {
            let ghost mid = self@;
            let ghost seen = came_back(v, mid);
            let clip: Arc<Clip<S>> = match self.retirement.next_returned() {
                Some(clip) => clip,
                None => {
                    assert(self@ == (AudioView { drained: mid.drained + 1, ..mid }));
                    assert((AudioView { drained: v.drained, ..self@ }) == mid);
                    return ;
                },
            };
            let ghost came = clip@;
            let ghost here = self@;
            proof {
                assert(here.returned =~= mid.returned.push(came));
                assert(here.returned.drop_last() =~= mid.returned);
                assert(before_last(here) == mid);
            }
            self.take_back(clip);
            proof {
                let alone = choose|alone: bool| takes_back(mid, came, alone, self@);
                assert(self@.returned == mid.returned.push(came));
                assert(came_back(v, self@) =~= seen.push(came));
                assert(seen.push(came).drop_last() =~= seen);
                assert(takes_back(mid, seen.push(came).last(), alone, self@));
            }
            left -= 1;
        }
        assert((AudioView { drained: v.drained, ..self@ }) == self@);
    }
}

/// The clips staged for the pads before a place, in order.
pub open spec fn staged_clips<S>(staged: Seq<Option<StagedView<S>>>, to: int) -> Seq<ClipView<S>>
    decreases to,
{
    if to <= 0 {
        Seq::empty()
    } else {
        match staged[to - 1] {
            Some(staged_clip) => staged_clips(staged, to - 1).push(staged_clip.clip),
            None => staged_clips(staged, to - 1),
        }
    }
}

/// Segments the clips staged for the pads before a place would cost.
pub open spec fn staged_cost<S>(staged: Seq<Option<StagedView<S>>>, to: int) -> int
    decreases to,
{
    if to <= 0 {
        0
    } else {
        staged_cost(staged, to - 1) + (match staged[to - 1] {
            Some(staged_clip) => staged_clip.clip.cost(),
            None => 0,
        })
    }
}

/// Nothing staged for any pad.
pub open spec fn nothing_staged<S>() -> Seq<Option<StagedView<S>>> {
    Seq::new(64, |i: int| None)
}

/// A load given up before it finished arriving: every clip of it goes to the recycler.
pub open spec fn abandoned<S>(v: AudioView<S>) -> AudioView<S> {
    AudioView {
        receiving: false,
        staged_grid: None,
        staged: nothing_staged(),
        retired: v.retired + staged_clips(v.staged, 64),
        ..v
    }
}

/// Taking in one step of a load. A clip is marked as lent first, unless somebody else is found
/// to be reading it, which rests with the other threads. Returns whether a load is complete.
pub open spec fn receives<S>(
    v: AudioView<S>,
    message: LoadMessage<S>,
    alone: bool,
    w: AudioView<S>,
    complete: bool,
) -> bool {
    match message {
        LoadMessage::Begin { grid } => !complete && w == (AudioView {
            receiving: true,
            staged_grid: Some(grid.inside()),
            ..abandoned(v)
        }),
        LoadMessage::Clip { addr, clip, playing, launch_anchor } => !complete && w == placed(
            asking(v, alone),
            addr,
            lent_out(clip.inside()@, alone),
            playing,
            launch_anchor,
        ),
        LoadMessage::End => complete == v.receiving && w == (AudioView { receiving: false, ..v }),
    }
}

/// A clip of a load as it is kept: marked as lent, where nobody else is reading it.
pub open spec fn lent_out<S>(clip: ClipView<S>, alone: bool) -> ClipView<S> {
    if alone {
        ClipView { borrowed: true, ..clip }
    } else {
        clip
    }
}

/// A clip of a load staged for its pad, or with no load to belong to, sent straight back.
pub open spec fn placed<S>(
    v: AudioView<S>,
    addr: SlotAddr,
    clip: ClipView<S>,
    playing: bool,
    launch_anchor: Option<Frames>,
) -> AudioView<S> {
    if v.receiving {
        AudioView {
            staged: v.staged.update(
                addr.place(),
                Some(StagedView { clip, playing, launch_anchor }),
            ),
            ..v
        }
    } else {
        AudioView { retired: v.retired.push(clip), ..v }
    }
}

impl<S: Copy> Audio<S> {
    /// Gives up a load that never finished arriving.
    ///
    /// The storage belongs to whoever sent it, so it goes back through the recycler rather
    /// than being dropped here.
    pub(crate) fn abandon(&mut self)
        requires
            old(self).wf(),
        ensures
            final(self).wf(),
            old(self).parks(final(self)),
            final(self)@ == abandoned(old(self)@),
    {
        self.receiving = false;
        self.staged_grid = None;
        let mut index: usize = 0;
        proof {
            assert(self@.retired =~= old(self)@.retired + staged_clips(old(self)@.staged, 0));
        }
        while index < PAD_COUNT
            invariant
                index <= 64,
                self.wf(),
                old(self).wf(),
                old(self).parks(self),
                self@ == (AudioView {
                    receiving: false,
                    staged_grid: None,
                    staged: Seq::new(
                        64,
                        |i: int|
                            if i < index {
                                None
                            } else {
                                old(self)@.staged[i]
                            },
                    ),
                    retired: old(self)@.retired + staged_clips(old(self)@.staged, index as int),
                    ..old(self)@
                }),
            decreases 64 - index,
        {
            let ghost mid = self@;
            assert(mid.staged[index as int] == staged_view(self.staged@[index as int]));
            let slot: Option<StagedClip<S>> = self.staged[index].take();
            assert(self@.staged =~= mid.staged.update(index as int, None));
            if let Some(staged) = slot {
                let ghost clip = staged.clip@;
                self.retirement.retire(staged.clip);
                assert(self@.retired =~= mid.retired.push(clip));
            }
            index += 1;
            assert(self@.staged =~= Seq::new(
                64,
                |i: int|
                    if i < index {
                        None
                    } else {
                        old(self)@.staged[i]
                    },
            ));
            assert(self@.retired =~= old(self)@.retired + staged_clips(
                old(self)@.staged,
                index as int,
            ));
        }
        assert(self@.staged =~= nothing_staged());
    }

    /// Segments the staged clips would cost the pool.
    pub(crate) fn staged_segments(&self) -> (r: usize)
        requires
            self.wf(),
        ensures
            r == (if staged_cost(self@.staged, 64) <= usize::MAX {
                staged_cost(self@.staged, 64)
            } else {
                usize::MAX as int
            }),
    {
        let mut total: usize = 0;
        let mut index: usize = 0;
        while index < PAD_COUNT
            invariant
                index <= 64,
                self.wf(),
                total == (if staged_cost(self@.staged, index as int) <= usize::MAX {
                    staged_cost(self@.staged, index as int)
                } else {
                    usize::MAX as int
                }),
            decreases 64 - index,
        {
            assert(self@.staged[index as int] == staged_view(self.staged@[index as int]));
            if let Some(staged) = &self.staged[index] {
                total = total.saturating_add(staged.clip.segments());
            }
            index += 1;
        }
        total
    }

    /// Takes in one step of a load, and returns whether a load is complete.
    pub(crate) fn receive(&mut self, message: LoadMessage<S>) -> (r: bool)
        requires
            old(self).wf(),
        ensures
            final(self).wf(),
            old(self).parks(final(self)),
            exists|alone: bool| receives(old(self)@, message, alone, final(self)@, r),
    {
        let ghost v = self@;
        match message {
            LoadMessage::Begin { grid } => {
                // Anything staged belongs to a load that never finished arriving.
                self.abandon();
                self.receiving = true;
                self.staged_grid = Some(grid.get());
                assert(receives(v, message, true, self@, false));
                false
            },
            LoadMessage::Clip { addr, clip, playing, launch_anchor } => {
                let mut clip: Arc<Clip<S>> = clip.open();
                let ghost came = clip@;
                // The loader keeps the storage, so mark it before the engine sees it as
                // one of its own.
                let alone: bool = lend_clip(sole(&mut self.readers, &mut clip));
                let ghost kept = clip@;
                assert(kept == lent_out(came, alone));
                assert(self@ =~= asking(v, alone));
                self.place(addr, clip, playing, launch_anchor);
                assert(receives(v, message, alone, self@, false));
                false
            },
            // An end with nothing open would otherwise commit an empty staging area and clear
            // whatever is loaded.
            LoadMessage::End => {
                let complete: bool = self.receiving;
                self.receiving = false;
                assert(receives(v, message, true, self@, complete));
                complete
            },
        }
    }

    /// Stages a clip of a load for its pad. With no load to belong to, it goes straight back.
    pub fn place(
        &mut self,
        addr: SlotAddr,
        clip: Arc<Clip<S>>,
        playing: bool,
        launch_anchor: Option<Frames>,
    )
        requires
            old(self).wf(),
            clip@.wf(),
        ensures
            final(self).wf(),
            old(self).parks(final(self)),
            final(self)@ == placed(old(self)@, addr, clip@, playing, launch_anchor),
    {
        let ghost kept = clip@;
        if self.receiving {
            let index: usize = addr.index();
            self.staged.set(index, Some(StagedClip { clip, playing, launch_anchor }));
            assert(self@.staged =~= old(self)@.staged.update(
                addr.place(),
                Some(StagedView { clip: kept, playing, launch_anchor }),
            ));
        } else {
            self.retirement.retire(clip);
            assert(self@.retired =~= old(self)@.retired.push(kept));
        }
    }
}

/// Storing captured frames in a clip, and silence for those of a run that the device never
/// delivered: `backed` of the run's frames have storage then.
pub open spec fn stored<S>(
    buffer: (BufferView<S>, BufferView<S>),
    pool: (PoolView<S>, PoolView<S>),
    frame: int,
    captured: Seq<S>,
    src_channels: int,
    picks: Seq<u8>,
    run: int,
    backed: int,
) -> bool {
    exists|middle: BufferView<S>, rest: PoolView<S>, written: int|
        #[trigger] wrote(
            (buffer.0, middle),
            (pool.0, rest),
            frame,
            captured,
            src_channels,
            picks,
            written,
        ) && fills(
            (middle, buffer.1),
            (rest, pool.1),
            frame + written,
            run - written,
            backed - written,
            constantly(buffer.0.quiet),
        )
}

/// Storing captured frames in a clip: `written` of them have storage then.
pub open spec fn wrote<S>(
    buffer: (BufferView<S>, BufferView<S>),
    pool: (PoolView<S>, PoolView<S>),
    frame: int,
    captured: Seq<S>,
    src_channels: int,
    picks: Seq<u8>,
    written: int,
) -> bool {
    fills(
        buffer,
        pool,
        frame,
        captured.len() as int / src_channels,
        written,
        picked(captured, src_channels, picks),
    )
}

/// A run is stored in two steps: what was captured, then silence.
pub(crate) proof fn stored_in_two<S>(
    buffer: (BufferView<S>, BufferView<S>),
    pool: (PoolView<S>, PoolView<S>),
    frame: int,
    captured: Seq<S>,
    src_channels: int,
    picks: Seq<u8>,
    run: int,
    backed: int,
    middle: BufferView<S>,
    rest: PoolView<S>,
    written: int,
)
    requires
        wrote((buffer.0, middle), (pool.0, rest), frame, captured, src_channels, picks, written),
        fills(
            (middle, buffer.1),
            (rest, pool.1),
            frame + written,
            run - written,
            backed - written,
            constantly(buffer.0.quiet),
        ),
    ensures
        stored(buffer, pool, frame, captured, src_channels, picks, run, backed),
{
}

/// A capture after a run of which `backed` frames were given storage.
pub open spec fn ran_on(recording: Recording, run: int, backed: int) -> Recording {
    Recording {
        frames: plus(recording.frames as int, run) as u64,
        written: if recording.tail_until is Some {
            recording.written
        } else {
            plus(recording.written as int, backed) as u64
        },
        tail_written: if recording.tail_until is Some {
            plus(recording.tail_written as int, backed) as u64
        } else {
            recording.tail_written
        },
        starved: recording.starved || recording.tail_until is None && backed < run,
        ..recording
    }
}

/// Whether a capture has nowhere to put a run: it ran dry before, has no clip, or is further
/// along than frames can be counted.
pub open spec fn nowhere<S>(v: AudioView<S>, place: int, run: int) -> bool {
    let recording = v.recordings[place]->Some_0;
    recording.starved || v.clips[place] is None || recording.frames + run > u64::MAX
}

/// Capturing a run for one pad: what arrived is written into its clip, with silence for the
/// rest. Nothing is where there is nowhere to put it, or somebody else was found to be reading
/// the clip, which rests with the other threads.
pub open spec fn captures<S>(
    v: AudioView<S>,
    place: int,
    captured: Seq<S>,
    src_channels: int,
    run: int,
    alone: bool,
    w: AudioView<S>,
    backed: int,
) -> bool {
    match v.recordings[place] {
        None => w == v && backed == 0,
        Some(recording) => {
            let mid = AudioView {
                recordings: v.recordings.update(place, Some(ran_on(recording, run, backed))),
                ..v
            };
            if nowhere(v, place, run) {
                backed == 0 && w == mid
            } else if !alone {
                backed == 0 && w == asking(mid, false)
            } else {
                w == (AudioView {
                    clips: v.clips.update(place, w.clips[place]),
                    pool: w.pool,
                    ..asking(mid, true)
                }) && w.clips[place] == Some(
                    ClipView {
                        buffer: w.clips[place]->Some_0.buffer,
                        ..v.clips[place]->Some_0
                    },
                ) && stored(
                    (v.clips[place]->Some_0.buffer, w.clips[place]->Some_0.buffer),
                    (v.pool, w.pool),
                    recording.frames as int,
                    captured,
                    src_channels,
                    recording.input.picked(),
                    run,
                    backed,
                )
            }
        },
    }
}

/// What became of a pad's capture over a run.
#[derive(Debug, Clone, Copy, PartialEq, Eq, Structural)]
pub struct Captured {
    /// Frames of the run that were given storage.
    pub backed: usize,
    /// Whether storage ran out in this run.
    pub low: bool,
    /// Whether the take has to end, because storage has run out.
    pub out_of_room: bool,
    /// Whether the tail is complete.
    pub tailed: bool,
}

/// What is to be made of a run of a capture.
pub open spec fn verdict(recording: Option<Recording>, run: int, backed: int) -> Captured {
    match recording {
        None => Captured { backed: 0, low: false, out_of_room: false, tailed: false },
        Some(recording) => Captured {
            backed: backed as usize,
            low: recording.tail_until is None && !recording.starved && backed < run,
            out_of_room: recording.tail_until is None && (recording.starved || backed < run),
            tailed: recording.tail_until matches Some(until) && plus(recording.frames as int, run)
                >= until,
        },
    }
}

impl<S: Copy> Audio<S> {
    /// Captures a run for one pad.
    pub(crate) fn capture(
        &mut self,
        index: usize,
        captured: &[S],
        src_channels: usize,
        run: usize,
    ) -> (r: Captured)
        requires
            old(self).wf(),
            index < 64,
            src_channels > 0,
            captured@.len() as int / src_channels as int <= run,
        ensures
            final(self).wf(),
            old(self).parks(final(self)),
            exists|alone: bool|
                captures(
                    old(self)@,
                    index as int,
                    captured@,
                    src_channels as int,
                    run as int,
                    alone,
                    final(self)@,
                    r.backed as int,
                ),
            r == verdict(old(self)@.recordings[index as int], run as int, r.backed as int),
    {
        let ghost v = self@;
        let ghost input = captured@;
        let ghost width = src_channels as int;
        let recording: Recording = match self.recordings[index] {
            Some(recording) => recording,
            None => {
                let made = Captured { backed: 0, low: false, out_of_room: false, tailed: false };
                assert(captures(
                    v,
                    index as int,
                    input,
                    width,
                    run as int,
                    true,
                    self@,
                    made.backed as int,
                ));
                return made;
            },
        };
        let mut backed: usize = 0;
        let mut alone: bool = true;
        // A starved take writes nothing more, keeping its backed frames contiguous.
        if !recording.starved && recording.frames <= u64::MAX - run as u64 {
            if let Some(clip) = self.take_clip(index) {
                let mut clip = clip;
                let lent: Option<&mut Clip<S>> = sole(&mut self.readers, &mut clip);
                alone = lent.is_some();
                backed = store_run(
                    lent,
                    recording,
                    captured,
                    src_channels,
                    run,
                    &mut self.segments,
                );
                let ghost now = clip@;
                self.put_clip(index, clip);
                assert(self@.clips =~= v.clips.update(index as int, Some(now)));
            }
        }
        let ghost mid = self@;
        let made: Captured = self.run_on(index, recording, run, backed);
        proof {
            assert(made.backed == backed);
            if nowhere(v, index as int, run as int) {
                assert(mid == v);
            } else if !alone {
                assert(mid.clips =~= v.clips);
                assert(mid == asking(v, false));
            }
            assert(captures(
                v,
                index as int,
                input,
                width,
                run as int,
                alone,
                self@,
                backed as int,
            ));
        }
        made
    }

    /// Moves a pad's capture on by a run of which `backed` frames were given storage.
    pub fn run_on(&mut self, index: usize, recording: Recording, run: usize, backed: usize) -> (r:
        Captured)
        requires
            old(self).wf(),
            index < 64,
            old(self)@.recordings[index as int] == Some(recording),
        ensures
            final(self).wf(),
            old(self).parks(final(self)),
            final(self)@ == (AudioView {
                recordings: old(self)@.recordings.update(
                    index as int,
                    Some(ran_on(recording, run as int, backed as int)),
                ),
                ..old(self)@
            }),
            r == verdict(Some(recording), run as int, backed as int),
    {
        let mut next: Recording = recording;
        let mut low: bool = false;
        let mut out_of_room: bool = false;
        // A short tail costs the pickup, not the take, and says nothing.
        if recording.tail_until.is_some() {
            next.tail_written = recording.tail_written.saturating_add(backed as u64);
        } else {
            next.written = recording.written.saturating_add(backed as u64);
            if recording.starved {
                // A press can take back a queued end, so the end is forced again every block.
                out_of_room = true;
            } else if backed < run {
                next.starved = true;
                out_of_room = true;
                low = true;
            }
        }
        next.frames = recording.frames.saturating_add(run as u64);
        let tailed: bool = match recording.tail_until {
            Some(until) => next.frames >= until,
            None => false,
        };
        let ghost before = self@;
        self.recordings.set(index, Some(next));
        proof {
            assert(self@.clips == before.clips);
            assert(self@.shells == before.shells);
            assert forall|i: int|
                0 <= i < 64 && (#[trigger] self@.clips[i]) is Some && self@.recordings[i] is Some
                    implies self@.clips[i]->Some_0.channels == self@.pool.channels by {
                assert(before.recordings[i] is Some);
                assert(before.clips[i] is Some);
            }
            assert(next == ran_on(recording, run as int, backed as int));
        }
        Captured { backed, low, out_of_room, tailed }
    }
}

/// Whether a list of work begins no take.
pub open spec fn begins_nothing(work: Seq<(SlotAddr, Effect)>) -> bool {
    forall|i: int| 0 <= i < work.len() ==> !((#[trigger] work[i]).1 is StartCapture)
}

/// What no work ever touches: how takes are measured and compensated, the track settings, a
/// load that is arriving, and what was published.
pub open spec fn settled_parts<S>(v: AudioView<S>, w: AudioView<S>) -> bool {
    &&& w.bar_frames == v.bar_frames
    &&& w.tail_frames == v.tail_frames
    &&& w.capture_offset == v.capture_offset
    &&& w.inputs == v.inputs
    &&& w.launch_modes == v.launch_modes
    &&& w.pickups == v.pickups
    &&& w.receiving == v.receiving
    &&& w.staged_grid == v.staged_grid
    &&& w.staged == v.staged
    &&& w.published == v.published
    &&& w.lost == v.lost
    &&& w.pool.capacity == v.pool.capacity
}

/// Work leaves the settings of the audio half alone, and refuses a pad only by beginning a take.
pub proof fn work_keeps_settings<S>(
    v: AudioView<S>,
    work: Seq<(SlotAddr, Effect)>,
    w: AudioView<S>,
    events: Seq<Event>,
)
    requires
        worked(v, work, w, events),
    ensures
        settled_parts(v, w),
        begins_nothing(work) ==> w.refused == v.refused,
    decreases work.len(),
{
    if work.len() > 0 {
        let (mid, count, alone) = choose|mid: AudioView<S>, count: int, alone: bool|
            #![trigger applied(mid, work.last().0, work.last().1, alone, w, events.skip(count))]
            0 <= count <= events.len() && worked(v, work.drop_last(), mid, events.take(count))
                && applied(mid, work.last().0, work.last().1, alone, w, events.skip(count));
        work_keeps_settings(v, work.drop_last(), mid, events.take(count));
        if begins_nothing(work) {
            assert forall|i: int| 0 <= i < work.drop_last().len() implies !((
            #[trigger] work.drop_last()[i]).1 is StartCapture) by {
                assert(work[i] == work.drop_last()[i]);
            }
            assert(!(work[work.len() - 1].1 is StartCapture));
        }
    }
}

/// Taking clips back leaves everything but the pools alone.
pub proof fn reclaiming_keeps_settings<S>(v: AudioView<S>, w: AudioView<S>)
    requires
        reclaims(v, w),
    ensures
        settled_parts(v, w),
        w.refused == v.refused,
        w.clips == v.clips,
        w.recordings == v.recordings,
        w.anchors == v.anchors,
        w.next_clip_id == v.next_clip_id,
{
    taking_back_keeps_settings(v, came_back(v, w), AudioView { drained: v.drained, ..w });
}

proof fn taking_back_keeps_settings<S>(v: AudioView<S>, clips: Seq<ClipView<S>>, w: AudioView<S>)
    requires
        takes_all_back(v, clips, w),
    ensures
        settled_parts(v, w),
        w.refused == v.refused,
        w.clips == v.clips,
        w.recordings == v.recordings,
        w.anchors == v.anchors,
        w.next_clip_id == v.next_clip_id,
    decreases clips.len(),
{
    if clips.len() > 0 {
        let (mid, alone) = choose|mid: AudioView<S>, alone: bool|
            takes_all_back(v, clips.drop_last(), mid) && #[trigger] takes_back(
                mid,
                clips.last(),
                alone,
                w,
            );
        taking_back_keeps_settings(v, clips.drop_last(), mid);
    }
}

} // verus!
