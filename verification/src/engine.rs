//! The realtime engine.
//!
//! A block of audio is rendered in runs. [`Engine::begin_block`] settles everything that has to
//! be settled before the first one. [`Engine::next_run`] fires what is due at the frame the
//! transport has reached and says how far the transport goes before something else is.
//! [`Engine::voice`] says what each pad plays over the run, and [`Engine::finish_run`] captures
//! the input and moves the transport on. [`Engine::end_block`] reports the clock.
//!
//! Runs end at beat boundaries, so a launch lands on the exact frame it was scheduled for
//! rather than at the next block edge. Nothing here allocates once the engine is built: all
//! audio memory comes from its pools, and retired clips return their segments to those pools
//! rather than being dropped.

use std::sync::Arc;

use vstd::arithmetic::div_mod::{
    lemma_fundamental_div_mod, lemma_mod_multiples_vanish, lemma_small_mod,
};
use vstd::prelude::*;
use vstd::slice::slice_subrange;

use crate::audio::{
    begins_nothing, captures, clip_view, clip_views, lets_go, nothing_staged, receives,
    reclaiming_keeps_settings, reclaims, settled_parts, staged_view, work_keeps_settings, Audio,
    AudioView, Recording, StagedClip,
};
use crate::chain::{chain_extends, chain_starts, chained, linked, Step};
use crate::click::{Blip, Click, ClickConfig, Tone};
use crate::clip::{as_usize, BufferView, Clip, ClipView, PoolView, SegmentPool};
use crate::command::Command;
use crate::event::{grown, since, since_adds, since_push, Event, EventSink};
use crate::gain::{gain_for_step, ladder, UNITY_STEP};
use crate::grid::{cut_offset, same_time_same_grid, BarGrid, Subdivision};
use crate::ids::{
    pad_bit, ClipId, LaunchMode, PadMask, SlotAddr, TrackId, TrackInput,
    PAD_COUNT,
};
use crate::lane::Inbox;
use crate::load::{LoadInbox, LoadMessage, Loader, SLOTS};
use crate::readers::{share, sole, Readers};
use crate::recycle::Recycler;
use crate::session::{
    always, cancelling, retargeted, stopping_begins_nothing, swept, tagged, SessionModel,
};
use crate::settings::Settings;
use crate::shared::{give_tail, move_start};
use crate::slot::{cleared, Ctx, Effect, SlotInput, SlotState};
use crate::snapshot::{Snapshot, SnapshotReader};
use crate::time::{Frames, SampleRate, Tempo, TimeError, TimeSignature};
use crate::transport::{
    advances, answers, applies_loads, arrived, beat_report, begins_block, can_handle, can_retime, cancels,
    capture_step, captured_run, changes, clears, clicks, clips_rewound, clock_at, commanded,
    commit_step, commits, completion, count32, cut_step, cuts_pad, cuts_short, defers, delivered,
    every_state, finishes_run, handled, installed, lands, longest, measurable, measures, moved_back, performs,
    publish_step, reaches_boundary, refusal_step, refusals_settle, regridded,
    regridded_at_start, reports_clock, retimes, rewinds, rewind_shift, rewound, rewound_anchor, session_moves, sets_paused,
    settles_load, shows, signature_report, snapshots, start_anchor, starts_run, tail_length,
    tail_settles, tail_step, tails_end, takes_in, tone_at, with_settings, Capturing, Deferred,
    EngineView, Publishing, Run,
};

verus! {

/// Frames a level travels the full gain range in by default. 5 ms at 48 kHz.
pub const DEFAULT_DECLICK: u64 = 240;

/// The engine could not be built.
#[derive(Debug, Clone, Copy, PartialEq, Eq, Structural)]
pub enum EngineError {
    /// The configured musical time was not valid.
    Time(TimeError),
    /// Channel count was zero.
    ZeroChannels,
    /// Capture channel count was zero.
    ZeroCaptureChannels,
    /// The segment pool held no segments.
    EmptyPool,
}

impl EngineError {
    /// What to tell the user.
    pub fn message(self) -> (r: &'static str)
        ensures
            match self {
                EngineError::Time(error) => r@ == error.text(),
                EngineError::ZeroChannels => r@ == "channel count must be greater than zero"@,
                EngineError::ZeroCaptureChannels => r@
                    == "capture channel count must be greater than zero"@,
                EngineError::EmptyPool => r@
                    == "the segment pool must hold at least one segment"@,
            },
    {
        match self {
            EngineError::Time(error) => error.message(),
            EngineError::ZeroChannels => "channel count must be greater than zero",
            EngineError::ZeroCaptureChannels => "capture channel count must be greater than zero",
            EngineError::EmptyPool => "the segment pool must hold at least one segment",
        }
    }
}

/// How the engine is set up. Fixed for the life of the engine except for the tempo.
#[derive(Debug, Clone, Copy, PartialEq, Eq, Structural)]
pub struct EngineConfig {
    /// Sample rate of the audio device.
    pub sample_rate: SampleRate,
    /// Starting tempo.
    pub tempo: Tempo,
    /// Time signature.
    pub time_signature: TimeSignature,
    /// Channels in the interleaved output buffer.
    pub channels: usize,
    /// Channels in the interleaved input buffer, which a track picks from.
    pub capture_channels: usize,
    /// Segments to allocate. This is the ceiling on total recorded audio.
    pub segment_pool: usize,
    /// Round-trip latency to compensate for, in frames. See
    /// [`Engine::set_capture_offset`].
    pub capture_offset: Frames,
    /// Click settings.
    pub click: ClickConfig,
    /// Input every track starts on.
    pub input: TrackInput,
    /// Where every track's clips start out being anchored.
    pub launch_mode: LaunchMode,
    /// Frames a level takes to travel the full gain range. Zero switches instead.
    pub declick: Frames,
}

impl EngineConfig {
    /// A stereo 48 kHz setup at 120 bpm, with roughly 90 seconds of recording space.
    ///
    /// # Errors
    ///
    /// [`EngineError::Time`], which these values never trigger.
    pub fn stereo_48k() -> (r: Result<Self, EngineError>)
        ensures
            r is Ok,
            r->Ok_0.sample_rate.rate() == 48_000,
            r->Ok_0.tempo.bits() == 0x405E_0000_0000_0000,
            r->Ok_0.time_signature.beats() == 4,
            r->Ok_0.time_signature.unit() == 4,
            r->Ok_0.channels == 2,
            r->Ok_0.capture_channels == 2,
            r->Ok_0.segment_pool == 64,
            r->Ok_0.capture_offset.0 == 0,
            r->Ok_0.click == (ClickConfig { enabled: true, level: 0x3EB3_3333 }),
            r->Ok_0.declick.0 == DEFAULT_DECLICK,
            r->Ok_0.input == TrackInput::Stereo,
            r->Ok_0.launch_mode == LaunchMode::Follow,
    {
        let sample_rate: SampleRate = match SampleRate::new(48_000) {
            Ok(sample_rate) => sample_rate,
            Err(error) => {
                return Err(EngineError::Time(error));
            },
        };
        let tempo: Tempo = match Tempo::new(0x405E_0000_0000_0000) {
            Ok(tempo) => tempo,
            Err(error) => {
                return Err(EngineError::Time(error));
            },
        };
        Ok(
            Self {
                sample_rate,
                tempo,
                time_signature: TimeSignature::four_four(),
                channels: 2,
                capture_channels: 2,
                segment_pool: 64,
                capture_offset: Frames(0),
                click: ClickConfig { enabled: true, level: 0x3EB3_3333 },
                declick: Frames(DEFAULT_DECLICK),
                input: TrackInput::Stereo,
                launch_mode: LaunchMode::Follow,
            },
        )
    }
}

/// The half of the engine that runs off the audio thread.
#[verifier::reject_recursive_types(S)]
pub struct Housekeeping<S> {
    /// Returns clips that were being read when the engine finished with them.
    pub recycler: Recycler<S>,
    /// Receives clips the engine publishes on [`Command::Snapshot`].
    pub snapshots: SnapshotReader<S>,
    /// Puts a saved session back into the engine.
    pub loader: Loader<S>,
}

/// The realtime engine.
#[verifier::reject_recursive_types(S)]
pub struct Engine<S> {
    grid: BarGrid,
    position: Frames,
    session: SessionModel,
    audio: Audio<S>,
    click: Click,
    /// How often the click sounds.
    subdivision: Subdivision,
    loads: LoadInbox<S>,
    channels: usize,
    /// Width of the input buffer, which a track picks one or two channels from.
    capture_channels: usize,
    paused: bool,
    /// Pads that do not sound.
    muted: PadMask,
    /// Pads that sound to the exclusion of the rest.
    soloed: PadMask,
    /// How loud each track plays, as a step on the gain ladder.
    gains: [u8; 8],
    /// Frames a level takes to travel the full gain range.
    declick: usize,
    /// A transport move waiting for the mix to fade out.
    pending: Option<Deferred>,
    /// The last position a beat fired on, so a grid change cannot fire it twice.
    last_boundary: Option<Frames>,
    /// The clock count the transport position last stood at.
    last_clock: u64,
    /// MIDI clock ticks reported since the engine was built.
    clock_total: u64,
    sample_rate: SampleRate,
    time_signature: TimeSignature,
    /// Whether the mix was cut to silence and the levels have not been told yet.
    silenced: bool,
    /// Work the pads call for, kept so that none is allocated while audio runs.
    work: Vec<(SlotAddr, Effect)>,
}

impl<S> View for Engine<S> {
    type V = EngineView<S>;

    closed spec fn view(&self) -> EngineView<S> {
        EngineView {
            grid: self.grid,
            position: self.position,
            session: self.session@,
            audio: self.audio@,
            click: self.click,
            subdivision: self.subdivision,
            received: self.loads@,
            idle: self.loads.empty(),
            channels: self.channels as int,
            capture_channels: self.capture_channels as int,
            paused: self.paused,
            muted: self.muted,
            soloed: self.soloed,
            gains: self.gains@,
            declick: self.declick as int,
            pending: self.pending,
            last_boundary: self.last_boundary,
            last_clock: self.last_clock,
            clock_total: self.clock_total,
            sample_rate: self.sample_rate,
            time_signature: self.time_signature,
            silenced: self.silenced,
        }
    }
}

impl<S> Engine<S> {
    /// The parts agree, and nothing given up was ever dropped.
    pub closed spec fn wf(&self) -> bool {
        self@.wf() && self.audio.wf()
    }

    /// An engine whose parts agree holds values that agree.
    pub proof fn parts_agree(&self)
        requires
            self.wf(),
        ensures
            self@.wf(),
    {
    }

    /// The clips given up that there was no room yet to hand over, the first to be parked first.
    pub closed spec fn parked(&self) -> Seq<ClipView<S>> {
        clip_views(self.audio.way_out().kept())
    }

    /// How often there was no room to hand a clip over.
    pub closed spec fn crowded(&self) -> int {
        self.audio.way_out().full()
    }

    /// Whether clips were parked only where no room was found for them.
    pub open spec fn parks(&self, after: &Self) -> bool {
        &&& after.crowded() >= self.crowded()
        &&& after.crowded() == self.crowded() ==> after.parked() == self.parked()
    }

    /// The parts agree, but for refusals that are still to be settled.
    spec fn sound(&self) -> bool {
        &&& self.audio.wf()
        &&& self@.audio.wf()
        &&& self@.grid.wf()
        &&& self@.session.len() == 64
        &&& self@.gains.len() == 8
        &&& self@.channels > 0
        &&& self@.capture_channels > 0
        &&& self@.measured()
    }
}

/// An engine as it is first built.
pub open spec fn fresh<S>(v: EngineView<S>, config: EngineConfig, quiet: S) -> bool {
    &&& measures(v.grid, config.sample_rate, config.tempo, config.time_signature)
    &&& v.position.0 == 0
    &&& v.session == Seq::new(64, |i: int| SlotState::Empty)
    &&& v.audio.clips == Seq::new(64, |i: int| None::<ClipView<S>>)
    &&& v.audio.recordings == Seq::new(64, |i: int| None::<Recording>)
    &&& v.audio.anchors == Seq::new(64, |i: int| None::<Frames>)
    &&& v.audio.staged == nothing_staged::<S>()
    &&& v.audio.shells == Seq::new(
        64,
        |i: int|
            ClipView {
                buffer: BufferView {
                    chunks: Seq::new(config.segment_pool as nat, |j: int| None),
                    channels: config.channels as int,
                    quiet,
                },
                len: 0,
                recorded_at: 0,
                channels: config.channels as int,
                capture_offset: 0,
                tail: 0,
                borrowed: false,
            },
    )
    &&& v.audio.pool == (PoolView {
        free: Seq::new(
            config.segment_pool as nat,
            |i: int| Seq::new((65_536 * config.channels) as nat, |j: int| quiet),
        ),
        channels: config.channels as int,
        capacity: config.segment_pool as int,
        reserved: 0,
    })
    &&& v.audio.retired.len() == 0
    &&& v.audio.published.len() == 0
    &&& v.audio.lost == 0
    &&& v.audio.returned.len() == 0
    &&& v.audio.asked.len() == 0
    &&& v.audio.next_clip_id == ClipId(0)
    &&& v.audio.capture_offset == config.capture_offset
    &&& forall|track: int|
        #![trigger v.audio.inputs[track]]
        0 <= track < 8 ==> v.audio.inputs[track] == config.input && v.audio.launch_modes[track]
            == config.launch_mode && v.audio.pickups[track] == 0 && v.gains[track] == UNITY_STEP
    &&& !v.audio.receiving
    &&& v.audio.staged_grid is None
    &&& v.click.on() == config.click.enabled
    &&& v.click.peak() == crate::click::clamped(config.click.level)
    &&& v.click.rate() == config.sample_rate
    &&& v.click.left() == 0
    &&& v.subdivision == Subdivision::Quarter
    &&& v.received.len() == 0
    &&& v.channels == config.channels
    &&& v.capture_channels == config.capture_channels
    &&& !v.paused
    &&& v.muted == 0
    &&& v.soloed == 0
    &&& v.declick == (if config.declick.0 <= usize::MAX {
        config.declick.0 as int
    } else {
        usize::MAX as int
    })
    &&& v.pending is None
    &&& v.last_boundary is None
    &&& v.last_clock == 0
    &&& v.clock_total == 0
    &&& v.sample_rate == config.sample_rate
    &&& !v.silenced
}

/// The anchor a clip recorded from the transport's start would hold.
///
/// Frame zero was captured `capture_offset` after the beat it belongs to, so the anchor
/// sits that far back.
pub fn anchor_at_start(len: Frames, capture_offset: Frames) -> (r: Frames)
    ensures
        r.0 == start_anchor(len.0 as int, capture_offset.0 as int),
        len.0 > 0 ==> r.0 < len.0,
{
    if len.0 == 0 {
        return Frames(0);
    }
    Frames((len.0 - capture_offset.0 % len.0) % len.0)
}

/// An anchor moved back, kept within one pass of the loop.
pub fn anchor_moved_back(anchor: Frames, len: Frames, by: u128) -> (r: Frames)
    ensures
        r.0 == moved_back(anchor.0 as int, len.0 as int, by as int),
        len.0 > 0 ==> r.0 < len.0,
{
    if len.0 == 0 {
        return Frames(0);
    }
    let within: u64 = (by % (len.0 as u128)) as u64;
    let from: u64 = anchor.0 % len.0;
    proof {
        let n = len.0 as int;
        lemma_fundamental_div_mod(anchor.0 as int, n);
        lemma_fundamental_div_mod(by as int, n);
        let passes = anchor.0 as int / n - by as int / n;
        assert(anchor.0 - by == from - within + n * passes) by (nonlinear_arith)
            requires
                anchor.0 == n * (anchor.0 as int / n) + from,
                by == n * (by as int / n) + within,
                passes == anchor.0 as int / n - by as int / n,
        ;
        lemma_mod_multiples_vanish(passes, from - within, n);
        if from >= within {
            lemma_small_mod((from - within) as nat, n as nat);
        } else {
            lemma_mod_multiples_vanish(1, from - within, n);
            lemma_small_mod((n + from - within) as nat, n as nat);
        }
    }
    if from >= within {
        Frames(from - within)
    } else {
        Frames(len.0 - (within - from))
    }
}

/// An answer for a later pad changes nothing for the first ones.
proof fn answers_look_ahead_no_further<S>(
    clips: Seq<Option<ClipView<S>>>,
    alone: Seq<bool>,
    next: bool,
    to: int,
)
    requires
        0 <= to <= alone.len(),
    ensures
        answers(clips, alone.push(next), to) == answers(clips, alone, to),
    decreases to,
{
    if to > 0 {
        answers_look_ahead_no_further(clips, alone, next, to - 1);
    }
}

/// Capture kept past a loop: every beat of the bar after it but the last.
fn tail_frames(grid: BarGrid) -> (r: u64)
    ensures
        r == tail_length(grid),
{
    let beats: u32 = grid.time_signature().beats_per_bar();
    grid.beat_offset(beats - 1).0
}

impl<S: Copy> Engine<S> {
    /// Builds an engine and allocates its pools. `quiet` is the sample that is silence.
    ///
    /// [`Housekeeping`] is the off-thread half. Run it anywhere except the audio thread.
    ///
    /// # Errors
    ///
    /// [`EngineError`] if the configuration is not usable.
    pub fn new(config: EngineConfig, quiet: S) -> (r: Result<
        (Self, Housekeeping<S>),
        EngineError,
    >)
        requires
            65_536 * config.channels <= usize::MAX,
        ensures
            r is Ok <==> config.channels > 0 && config.capture_channels > 0 && config.segment_pool
                > 0 && measurable(config.sample_rate, config.tempo, config.time_signature),
            r is Err ==> r->Err_0 == (if config.channels == 0 {
                EngineError::ZeroChannels
            } else if config.capture_channels == 0 {
                EngineError::ZeroCaptureChannels
            } else if config.segment_pool == 0 {
                EngineError::EmptyPool
            } else {
                EngineError::Time(TimeError::BarLengthUnrepresentable)
            }),
            r is Ok ==> r->Ok_0.0.wf() && fresh(r->Ok_0.0@, config, quiet),
            r is Ok ==> r->Ok_0.0.parked().len() == 0 && r->Ok_0.0.crowded() == 0,
            r is Ok ==> r->Ok_0.1.recycler.wf() && r->Ok_0.1.recycler.idle()
                && r->Ok_0.1.snapshots@.len() == 0 && r->Ok_0.1.snapshots.empty() == 0
                && r->Ok_0.1.loader@.len() == 0 && r->Ok_0.1.loader.full() == 0
                && r->Ok_0.1.loader.rate() == config.sample_rate,
            r is Ok ==> r->Ok_0.1.recycler.limits() == (
                crate::recycle::SLOTS as int,
                crate::recycle::SLOTS as int,
            ) && r->Ok_0.1.snapshots.limit() == crate::snapshot::SLOTS
                && r->Ok_0.1.loader.limit() == SLOTS,
    {
        if config.channels == 0 {
            return Err(EngineError::ZeroChannels);
        }
        if config.capture_channels == 0 {
            return Err(EngineError::ZeroCaptureChannels);
        }
        if config.segment_pool == 0 {
            return Err(EngineError::EmptyPool);
        }
        let grid: BarGrid = match BarGrid::new(
            config.sample_rate,
            config.tempo,
            config.time_signature,
        ) {
            Ok(grid) => grid,
            Err(error) => {
                return Err(EngineError::Time(error));
            },
        };

        // One take may use the whole pool. The slots are pointers; only the segments
        // written cost memory.
        let max_segments: usize = config.segment_pool;

        let (retirement, recycler) = crate::recycle::channel();
        let (snapshots, snapshot_reader) = crate::snapshot::channel();
        let (loader, loads) = crate::load::channel(config.sample_rate);
        let mut shells: Vec<Arc<Clip<S>>> = Vec::with_capacity(PAD_COUNT);
        let mut clips: Vec<Option<Arc<Clip<S>>>> = Vec::with_capacity(PAD_COUNT);
        let mut recordings: Vec<Option<Recording>> = Vec::with_capacity(PAD_COUNT);
        let mut anchors: Vec<Option<Frames>> = Vec::with_capacity(PAD_COUNT);
        let mut staged: Vec<Option<StagedClip<S>>> = Vec::with_capacity(PAD_COUNT);
        let ghost shell = ClipView {
            buffer: BufferView {
                chunks: Seq::new(config.segment_pool as nat, |j: int| None::<Seq<S>>),
                channels: config.channels as int,
                quiet,
            },
            len: 0,
            recorded_at: 0,
            channels: config.channels as int,
            capture_offset: 0,
            tail: 0,
            borrowed: false,
        };
        while shells.len() < PAD_COUNT
            invariant
                max_segments == config.segment_pool,
                shells@.len() <= 64,
                clips@.len() == shells@.len(),
                recordings@.len() == shells@.len(),
                anchors@.len() == shells@.len(),
                staged@.len() == shells@.len(),
                shell == (ClipView {
                    buffer: BufferView {
                        chunks: Seq::new(config.segment_pool as nat, |j: int| None::<Seq<S>>),
                        channels: config.channels as int,
                        quiet,
                    },
                    len: 0,
                    recorded_at: 0,
                    channels: config.channels as int,
                    capture_offset: 0,
                    tail: 0,
                    borrowed: false,
                }),
                forall|i: int|
                    0 <= i < shells@.len() ==> (#[trigger] shells@[i])@ == shell && shells@[i]@.wf(),
                forall|i: int| 0 <= i < shells@.len() ==> (#[trigger] clips@[i]) is None,
                forall|i: int| 0 <= i < shells@.len() ==> (#[trigger] recordings@[i]) is None,
                forall|i: int| 0 <= i < shells@.len() ==> (#[trigger] anchors@[i]) is None,
                forall|i: int| 0 <= i < shells@.len() ==> (#[trigger] staged@[i]) is None,
            decreases 64 - shells@.len(),
        {
            let empty: Clip<S> = Clip::empty(max_segments, config.channels, quiet);
            assert(empty@.buffer.chunks =~= shell.buffer.chunks);
            shells.push(Arc::new(empty));
            clips.push(None);
            recordings.push(None);
            anchors.push(None);
            staged.push(None);
        }
        let engine = Self {
            grid,
            position: Frames(0),
            session: SessionModel::new(),
            audio: Audio {
                clips,
                recordings,
                shells,
                segments: SegmentPool::new(config.segment_pool, config.channels, quiet),
                retirement,
                snapshots,
                next_clip_id: ClipId(0),
                capture_offset: config.capture_offset,
                bar_frames: grid.bars(1).0,
                tail_frames: tail_frames(grid),
                inputs: [config.input; 8],
                launch_modes: [config.launch_mode; 8],
                pickups: [0; 8],
                anchors,
                refused: 0,
                receiving: false,
                staged_grid: None,
                staged,
                readers: Readers::new(),
            },
            click: Click::new(config.click, config.sample_rate),
            subdivision: Subdivision::Quarter,
            loads,
            channels: config.channels,
            capture_channels: config.capture_channels,
            paused: false,
            muted: 0,
            soloed: 0,
            gains: [UNITY_STEP; 8],
            declick: as_usize(config.declick.0),
            pending: None,
            last_boundary: None,
            last_clock: 0,
            clock_total: 0,
            sample_rate: config.sample_rate,
            time_signature: config.time_signature,
            silenced: false,
            work: Vec::with_capacity(2 * PAD_COUNT),
        };
        proof {
            let v = engine@;
            assert(v.audio.clips =~= Seq::new(64, |i: int| None::<ClipView<S>>));
            assert(v.audio.recordings =~= Seq::new(64, |i: int| None::<Recording>));
            assert(v.audio.anchors =~= Seq::new(64, |i: int| None::<Frames>));
            assert(v.audio.staged =~= nothing_staged::<S>());
            assert(v.audio.shells =~= Seq::new(64, |i: int| shell));
            assert(v.audio.wf());
        }
        Ok((engine, Housekeeping { recycler, snapshots: snapshot_reader, loader }))
    }
}

impl<S: Copy> Engine<S> {
    fn ctx(&self) -> (r: Ctx)
        ensures
            r == self@.moment(),
    {
        Ctx { now: self.position, grid: self.grid, next_clip_id: self.audio.next_clip_id }
    }

    /// Takes the list the pads write their work to, with nothing on it. The engine is left with
    /// an empty one until the list comes back.
    fn take_work(&mut self) -> (r: Vec<(SlotAddr, Effect)>)
        ensures
            r@.len() == 0,
            final(self).work@.len() == 0,
            final(self)@ == old(self)@,
            final(self).audio == old(self).audio,
            final(self).session == old(self).session,
    {
        let mut work: Vec<(SlotAddr, Effect)> = Vec::new();
        core::mem::swap(&mut work, &mut self.work);
        work.clear();
        work
    }

    /// Carries out the work the pads called for, and keeps the list for the next time.
    fn finish_work<E: EventSink>(
        &mut self,
        work: Vec<(SlotAddr, Effect)>,
        sink: &mut E,
        Ghost(before): Ghost<EngineView<S>>,
        Ghost(states): Ghost<Seq<SlotState>>,
    )
        requires
            old(self).sound(),
            old(self)@ == (EngineView { session: states, ..before }),
        ensures
            final(self).sound(),
            old(self).parks(final(self)),
            grown(old(sink).log(), final(sink).log()),
            session_moves(
                before,
                states,
                work@,
                final(self)@,
                since(old(sink).log(), final(sink).log()),
            ),
            begins_nothing(work@) ==> final(self)@.audio.refused == before.audio.refused,
    {
        self.audio.carry_out(&work, sink);
        proof {
            work_keeps_settings(
                before.audio,
                work@,
                self.audio@,
                since(old(sink).log(), sink.log()),
            );
        }
        self.work = work;
    }

    /// Discards every take in progress.
    fn cancel_recordings<E: EventSink>(&mut self, sink: &mut E)
        requires
            old(self).sound(),
        ensures
            final(self).sound(),
            old(self).parks(final(self)),
            grown(old(sink).log(), final(sink).log()),
            cancels(old(self)@, final(self)@, since(old(sink).log(), final(sink).log())),
            final(self)@.audio.refused == old(self)@.audio.refused,
    {
        let ctx: Ctx = self.ctx();
        let mut work: Vec<(SlotAddr, Effect)> = self.take_work();
        self.session.cancel_recordings(&ctx, &mut work);
        proof {
            let v = old(self)@;
            let swept_work = swept(v.session, cancelling(), ctx, 0, 64);
            assert(work@ =~= swept_work);
            stopping_begins_nothing(v.session, cancelling(), ctx, 0, 64);
        }
        let ghost states = self.session@;
        self.finish_work(work, sink, Ghost(old(self)@), Ghost(states));
    }

    /// Takes the clock count from wherever the transport now is.
    ///
    /// Called after anything that moves the transport other than playing. The running
    /// total is left alone.
    fn resync_clock(&mut self)
        requires
            old(self).sound(),
        ensures
            final(self).sound(),
            old(self).parks(final(self)),
            final(self)@ == (EngineView {
                last_clock: clock_at(old(self)@.grid, old(self)@.position.0 as int),
                ..old(self)@
            }),
    {
        self.last_clock = self.grid.clock_ticks_at(self.position);
    }

    /// Sends the transport back to the start, with the longest loop at its beginning.
    ///
    /// Every anchor moves by the same amount, which keeps the loops where they were
    /// against each other. The longest loop is the reference.
    fn rewind<E: EventSink>(&mut self, sink: &mut E)
        requires
            old(self).sound(),
        ensures
            final(self).sound(),
            old(self).parks(final(self)),
            grown(old(sink).log(), final(sink).log()),
            rewinds(old(self)@, final(self)@, since(old(sink).log(), final(sink).log())),
            final(self)@.audio.refused == old(self)@.audio.refused,
    {
        // A take spanning a rewind splices two moments together.
        self.cancel_recordings(sink);
        let ghost mid = self@;

        self.position = Frames(0);
        self.last_boundary = None;
        self.resync_clock();

        // Anything waiting on a bar line was scheduled against the old position, which is
        // now far ahead. Retargeting fires it at the start instead of stranding it.
        self.session.retarget_pending(Frames(0));
        let ghost states = self.session@;
        let ghost base = self@;
        self.rewind_clips();
        proof {
            let alone = choose|alone: Seq<bool>|
                clips_rewound(mid.audio, states, alone, self@.audio);
            assert(clips_rewound(mid.audio, self@.session, alone, self@.audio));
            assert(cancels(old(self)@, mid, since(old(sink).log(), sink.log())));
            assert(self@ == (EngineView {
                position: Frames(0),
                last_boundary: None,
                last_clock: clock_at(old(self)@.grid, 0),
                session: mid.session.map_values(|state: SlotState| retargeted(state, Frames(0))),
                audio: self@.audio,
                ..mid
            }));
        }
    }

    /// The position every anchor is counted from once the transport is back at the start: the
    /// beat the longest loop begins on.
    fn start_beat(&self) -> (r: u128)
        requires
            self.sound(),
        ensures
            r == rewind_shift(self@.audio, self@.session),
    {
        let mut best: Option<usize> = None;
        let mut most: u64 = 0;
        let mut index: usize = 0;
        while index < PAD_COUNT
            invariant
                index <= 64,
                self.sound(),
                match best {
                    Some(place) => place < index && longest(self@.audio.clips, index as int)
                        == place && self@.audio.clips[place as int] is Some
                        && self@.audio.clips[place as int]->Some_0.len == most,
                    None => longest(self@.audio.clips, index as int) < 0 && most == 0,
                },
                most > 0 <==> best is Some,
            decreases 64 - index,
        {
            assert(self@.audio.clips[index as int] == clip_view(self.audio.clips@[index as int]));
            if let Some(clip) = &self.audio.clips[index] {
                let len: u64 = clip.len().0;
                if len > most {
                    most = len;
                    best = Some(index);
                }
            }
            index += 1;
        }
        let place: usize = match best {
            Some(place) => place,
            None => {
                return 0;
            },
        };
        assert(self@.audio.clips[place as int] == clip_view(self.audio.clips@[place as int]));
        match &self.audio.clips[place] {
            Some(clip) => {
                let sounding: bool = self.session.state(SlotAddr::of_index(place)).is_sounding();
                let anchor: Frames = match self.audio.anchors[place] {
                    Some(anchor) if sounding => anchor,
                    _ => clip.recorded_at(),
                };
                anchor.0 as u128 + clip.capture_offset().0 as u128
            },
            None => 0,
        }
    }

    /// Moves every anchor back by the same amount, so that the longest loop is at its beginning
    /// at the transport's start and the others are where they were against it.
    fn rewind_clips(&mut self)
        requires
            old(self).sound(),
        ensures
            final(self).sound(),
            old(self).parks(final(self)),
            final(self)@ == (EngineView { audio: final(self)@.audio, ..old(self)@ }),
            exists|alone: Seq<bool>|
                clips_rewound(old(self)@.audio, old(self)@.session, alone, final(self)@.audio),
            final(self)@.audio.refused == old(self)@.audio.refused,
    {
        let ghost before = self@.audio;
        let ghost states = self@.session;
        let by: u128 = self.start_beat();
        let ghost mut alone: Seq<bool> = Seq::empty();
        assert(before.asked + answers(before.clips, alone, 0) =~= before.asked);
        let mut index: usize = 0;
        while index < PAD_COUNT
            invariant
                index <= 64,
                self.sound(),
                old(self).parks(self),
                before == old(self)@.audio,
                states == old(self)@.session,
                before.wf(),
                alone.len() == index,
                self@ == (EngineView {
                    audio: AudioView {
                        clips: self@.audio.clips,
                        anchors: self@.audio.anchors,
                        asked: before.asked + answers(before.clips, alone, index as int),
                        ..before
                    },
                    ..old(self)@
                }),
                forall|place: int|
                    0 <= place < index ==> #[trigger] self@.audio.clips[place] == rewound(
                        before.clips[place],
                        by as int,
                        alone[place],
                    ),
                forall|place: int|
                    index <= place < 64 ==> #[trigger] self@.audio.clips[place]
                        == before.clips[place],
                forall|place: int|
                    0 <= place < index ==> #[trigger] self@.audio.anchors[place]
                        == rewound_anchor(
                        before.clips[place],
                        before.anchors[place],
                        states[place],
                        by as int,
                    ),
                forall|place: int|
                    index <= place < 64 ==> #[trigger] self@.audio.anchors[place]
                        == before.anchors[place],
            decreases 64 - index,
        {
            let ghost now = self@.audio;
            let addr: SlotAddr = SlotAddr::of_index(index);
            match self.audio.take_clip(index) {
                None => {
                    self.audio.anchors.set(index, None);
                    assert(self@.audio.clips =~= now.clips);
                    proof {
                        answers_look_ahead_no_further(before.clips, alone, true, index as int);
                        alone = alone.push(true);
                    }
                },
                Some(clip) => {
                    let mut clip = clip;
                    let ghost was = clip@;
                    let len: Frames = clip.len();
                    let start: Frames = anchor_moved_back(clip.recorded_at(), len, by);
                    // A clip somebody is reading keeps its old anchor, which is rare.
                    let moved: bool = move_start(sole(&mut self.audio.readers, &mut clip), start);
                    let ghost is = clip@;
                    assert(rewound(Some(was), by as int, moved) == Some(is));
                    self.audio.put_clip(index, clip);
                    // A pad that is not sounding takes a fresh anchor when it is next
                    // launched, so there is nothing to keep.
                    let sounding: bool = self.session.state(addr).is_sounding();
                    let anchor: Option<Frames> = match self.audio.anchors[index] {
                        Some(anchor) if sounding => Some(anchor_moved_back(anchor, len, by)),
                        _ => None,
                    };
                    self.audio.anchors.set(index, anchor);
                    assert(self@.audio.clips =~= now.clips.update(index as int, Some(is)));
                    proof {
                        answers_look_ahead_no_further(before.clips, alone, moved, index as int);
                        let earlier = answers(before.clips, alone, index as int);
                        alone = alone.push(moved);
                        assert(before.asked + earlier.push(moved) =~= (before.asked + earlier).push(
                            moved,
                        ));
                    }
                },
            }
            index += 1;
        }
        proof {
            let shift = rewind_shift(before, states);
            assert(self@.audio.clips =~= Seq::new(
                64,
                |place: int| rewound(before.clips[place], shift, alone[place]),
            ));
            assert(self@.audio.anchors =~= Seq::new(
                64,
                |place: int|
                    rewound_anchor(
                        before.clips[place],
                        before.anchors[place],
                        states[place],
                        shift,
                    ),
            ));
            assert(clips_rewound(before, states, alone, self@.audio));
        }
    }

    /// Empties every pad and starts the transport over.
    fn clear_all<E: EventSink>(&mut self, sink: &mut E)
        requires
            old(self).sound(),
        ensures
            final(self).sound(),
            old(self).parks(final(self)),
            grown(old(sink).log(), final(sink).log()),
            clears(old(self)@, final(self)@, since(old(sink).log(), final(sink).log())),
            final(self)@.audio.refused == old(self)@.audio.refused,
    {
        let ctx: Ctx = self.ctx();
        let mut work: Vec<(SlotAddr, Effect)> = self.take_work();
        self.session.clear_all(&ctx, &mut work);
        proof {
            let v = old(self)@;
            assert(work@ =~= swept(v.session, always(SlotInput::Clear), ctx, 0, 64));
            stopping_begins_nothing(v.session, always(SlotInput::Clear), ctx, 0, 64);
        }
        let ghost states = self.session@;
        self.finish_work(work, sink, Ghost(old(self)@), Ghost(states));
        let ghost mid = self@;
        let ghost log = sink.log();
        self.rewind(sink);
        proof {
            since_adds(old(sink).log(), log, sink.log());
            assert(rewinds(mid, self@, since(log, sink.log())));
            let first = since(old(sink).log(), log);
            let second = since(log, sink.log());
            assert(since(old(sink).log(), sink.log()) == first + second);
        }
    }

    /// Performs a move whose fade has finished.
    fn apply_deferred<E: EventSink>(&mut self, action: Deferred, sink: &mut E)
        requires
            old(self).sound(),
        ensures
            final(self).sound(),
            old(self).parks(final(self)),
            grown(old(sink).log(), final(sink).log()),
            performs(old(self)@, action, final(self)@, since(old(sink).log(), final(sink).log())),
            final(self)@.audio.refused == old(self)@.audio.refused,
    {
        match action {
            Deferred::Rewind => self.rewind(sink),
            Deferred::ClearAll => self.clear_all(sink),
            Deferred::Pause => {
                self.paused = true;
                self.cancel_recordings(sink);
            },
        }
        let ghost moved = self@;
        // Zero already after a fade. Forcing it covers having had nothing to fade.
        self.silenced = true;
        proof {
            assert((EngineView { silenced: old(self)@.silenced, ..self@ }) == moved);
        }
    }

    /// Queues a transport move behind a fade. With no ramp it lands at once.
    fn defer<E: EventSink>(&mut self, action: Deferred, sink: &mut E)
        requires
            old(self).sound(),
        ensures
            final(self).sound(),
            old(self).parks(final(self)),
            grown(old(sink).log(), final(sink).log()),
            defers(old(self)@, action, final(self)@, since(old(sink).log(), final(sink).log())),
            final(self)@.audio.refused == old(self)@.audio.refused,
    {
        if self.declick == 0 {
            self.apply_deferred(action, sink);
        } else {
            self.pending = Some(action);
            proof {
                since_push(sink.log(), Event::TempoRejected);
            }
        }
    }

    fn set_paused<E: EventSink>(&mut self, paused: bool, sink: &mut E)
        requires
            old(self).sound(),
        ensures
            final(self).sound(),
            old(self).parks(final(self)),
            grown(old(sink).log(), final(sink).log()),
            sets_paused(old(self)@, paused, final(self)@, since(old(sink).log(), final(sink).log())),
            final(self)@.audio.refused == old(self)@.audio.refused,
    {
        proof {
            since_push(sink.log(), Event::TempoRejected);
        }
        if paused {
            if self.paused || self.pending == Some(Deferred::Pause) {
                return ;
            }
            self.defer(Deferred::Pause, sink);
            return ;
        }
        // A second press cancels a pause that has not landed yet.
        if self.pending == Some(Deferred::Pause) {
            self.pending = None;
        }
        self.paused = false;
    }
}

impl<S: Copy> Engine<S> {
    /// Reports every pad whose state is not what it was.
    fn emit_changes<E: EventSink>(&self, before: &SessionModel, sink: &mut E)
        requires
            self.sound(),
            before@.len() == 64,
        ensures
            grown(old(sink).log(), final(sink).log()),
            since(old(sink).log(), final(sink).log()) == changes(before@, self@.session, 64),
    {
        let mut index: usize = 0;
        proof {
            since_push(sink.log(), Event::TempoRejected);
        }
        while index < PAD_COUNT
            invariant
                index <= 64,
                self.sound(),
                before@.len() == 64,
                grown(old(sink).log(), sink.log()),
                since(old(sink).log(), sink.log()) == changes(
                    before@,
                    self@.session,
                    index as int,
                ),
            decreases 64 - index,
        {
            let addr: SlotAddr = SlotAddr::of_index(index);
            let state: SlotState = self.session.state(addr);
            if before.state(addr) != state {
                let ghost log = sink.log();
                sink.event(Event::SlotChanged { addr, state });
                proof {
                    since_push(log, Event::SlotChanged { addr, state });
                    since_adds(old(sink).log(), log, sink.log());
                    assert(since(old(sink).log(), sink.log()) =~= changes(
                        before@,
                        self@.session,
                        index + 1,
                    ));
                }
            }
            index += 1;
        }
    }

    /// Says what signature the transport is running at.
    fn report_time_signature<E: EventSink>(&self, sink: &mut E)
        ensures
            final(sink).log() == old(sink).log().push(signature_report(self@.grid)),
    {
        let signature: TimeSignature = self.grid.time_signature();
        sink.event(
            Event::TimeSignature {
                beats_per_bar: signature.beats_per_bar(),
                beat_unit: signature.beat_unit(),
            },
        );
    }

    /// Takes a new bar grid, moving the transport to the same musical place and keeping
    /// anything measured by the grid in step.
    fn regrid(&mut self, grid: BarGrid)
        requires
            old(self).sound(),
            grid.wf(),
            old(self)@.grid.rebased(old(self)@.position.0 as int, grid) <= u64::MAX,
        ensures
            final(self).sound(),
            old(self).parks(final(self)),
            final(self)@ == regridded(old(self)@, grid),
    {
        // Move the transport with the grid, or the same frame count would land on a
        // different beat and the click would jump instead of changing interval.
        self.position = self.grid.rebase_onto(self.position, grid);
        self.set_grid(grid);
        self.last_clock = self.grid.clock_ticks_at(self.position);
    }

    /// Takes a new bar grid, keeping anything measured by it in step.
    fn set_grid(&mut self, grid: BarGrid)
        requires
            old(self).sound(),
            grid.wf(),
        ensures
            final(self).sound(),
            old(self).parks(final(self)),
            final(self)@ == (EngineView {
                grid,
                time_signature: grid.signature_at(),
                audio: AudioView {
                    bar_frames: grid.bar() as u64,
                    tail_frames: tail_length(grid) as u64,
                    ..old(self)@.audio
                },
                ..old(self)@
            }),
    {
        self.grid = grid;
        self.time_signature = grid.time_signature();
        self.audio.bar_frames = grid.bars(1).0;
        self.audio.tail_frames = tail_frames(grid);
    }

    /// Whether a clip anywhere locks the tempo.
    fn is_locked(&self) -> (r: bool)
        ensures
            r == self@.locked(),
    {
        // A clear already committed takes every clip with it, so it locks nothing.
        let clearing: bool = self.pending == Some(Deferred::ClearAll);
        !clearing && self.session.has_any_clip()
    }

    fn set_tempo<E: EventSink>(&mut self, tempo: Tempo, sink: &mut E)
        requires
            old(self).sound(),
            !old(self)@.locked() ==> can_retime(old(self)@, tempo, old(self)@.time_signature),
        ensures
            final(self).sound(),
            old(self).parks(final(self)),
            grown(old(sink).log(), final(sink).log()),
            retimes(
                old(self)@,
                tempo,
                old(self)@.time_signature,
                Event::Tempo { bpm: tempo },
                Event::TempoRejected,
                final(self)@,
                since(old(sink).log(), final(sink).log()),
            ),
            final(self)@.audio.refused == old(self)@.audio.refused,
    {
        proof {
            since_push(sink.log(), Event::TempoRejected);
            since_push(sink.log(), Event::Tempo { bpm: tempo });
        }
        if self.is_locked() {
            sink.event(Event::TempoRejected);
            return ;
        }
        let grid: BarGrid = match BarGrid::new(self.sample_rate, tempo, self.time_signature) {
            Ok(grid) => grid,
            Err(_) => {
                sink.event(Event::TempoRejected);
                return ;
            },
        };
        assert(measures(grid, self@.sample_rate, tempo, self@.time_signature));
        self.regrid(grid);
        // Reported on success as well as refusal, so a resync answer queued earlier cannot
        // end up as the last word on the tempo.
        sink.event(Event::Tempo { bpm: tempo });
    }

    /// Takes a new time signature, keeping the tempo.
    fn set_time_signature<E: EventSink>(&mut self, signature: TimeSignature, sink: &mut E)
        requires
            old(self).sound(),
            !old(self)@.locked() ==> can_retime(
                old(self)@,
                old(self)@.grid.tempo_at(),
                signature,
            ),
        ensures
            final(self).sound(),
            old(self).parks(final(self)),
            grown(old(sink).log(), final(sink).log()),
            retimes(
                old(self)@,
                old(self)@.grid.tempo_at(),
                signature,
                Event::TimeSignature {
                    beats_per_bar: signature.beats() as u32,
                    beat_unit: signature.unit() as u32,
                },
                Event::TimeSignatureRejected,
                final(self)@,
                since(old(sink).log(), final(sink).log()),
            ),
            final(self)@.audio.refused == old(self)@.audio.refused,
    {
        proof {
            since_push(sink.log(), Event::TimeSignatureRejected);
        }
        if self.is_locked() {
            sink.event(Event::TimeSignatureRejected);
            return ;
        }
        let tempo: Tempo = self.grid.tempo();
        let grid: BarGrid = match BarGrid::new(self.sample_rate, tempo, signature) {
            Ok(grid) => grid,
            Err(_) => {
                sink.event(Event::TimeSignatureRejected);
                return ;
            },
        };
        assert(measures(grid, self@.sample_rate, tempo, signature));
        self.regrid(grid);
        proof {
            since_push(sink.log(), signature_report(grid));
        }
        // Reported on success as well as refusal, so a resync answer queued earlier cannot
        // end up as the last word on the signature.
        self.report_time_signature(sink);
    }

    /// Gives a pad's clip the tail its recording captured, and ends the recording.
    ///
    /// The recording is kept if the clip cannot be written to, so the tail is never lost
    /// without being recorded.
    fn settle_tail(&mut self, index: usize)
        requires
            old(self).sound(),
            index < 64,
        ensures
            final(self).sound(),
            old(self).parks(final(self)),
            final(self)@ == (EngineView { audio: final(self)@.audio, ..old(self)@ }),
            exists|alone: bool|
                tail_settles(old(self)@.audio, index as int, alone, final(self)@.audio),
    {
        let ghost before = self@.audio;
        let recording: Recording = match self.audio.recordings[index] {
            Some(recording) => recording,
            None => {
                assert(tail_settles(before, index as int, true, self@.audio));
                return ;
            },
        };
        if recording.tail_until.is_none() {
            assert(tail_settles(before, index as int, true, self@.audio));
            return ;
        }
        let mut clip: Arc<Clip<S>> = match self.audio.take_clip(index) {
            Some(clip) => clip,
            None => {
                assert(self@.audio.clips =~= before.clips);
                assert(tail_settles(before, index as int, true, self@.audio));
                return ;
            },
        };
        let done: bool = give_tail(
            sole(&mut self.audio.readers, &mut clip),
            Frames(recording.tail_written),
        );
        let ghost is = clip@;
        self.audio.put_clip(index, clip);
        if done {
            self.audio.recordings.set(index, None);
            assert(self@.audio.clips =~= before.clips.update(index as int, Some(is)));
        } else {
            assert(self@.audio.clips =~= before.clips);
        }
        assert(tail_settles(before, index as int, done, self@.audio));
    }

    /// Publishes one pad, if it holds finished audio. Returns whether it does, and whether it
    /// was published.
    fn publish_pad(
        &mut self,
        request: u32,
        index: usize,
        Ghost(published): Ghost<int>,
        Ghost(expected): Ghost<int>,
    ) -> (r: (bool, bool))
        requires
            old(self).sound(),
            index < 64,
        ensures
            final(self).sound(),
            old(self).parks(final(self)),
            final(self)@ == (EngineView { audio: final(self)@.audio, ..old(self)@ }),
            final(self)@.audio.refused == old(self)@.audio.refused,
            r.1 ==> r.0,
            publish_step(request, old(self)@.session)(
                Publishing { audio: old(self)@.audio, published, expected },
                index as int,
                Publishing {
                    audio: final(self)@.audio,
                    published: published + (if r.1 {
                        1int
                    } else {
                        0
                    }),
                    expected: expected + (if r.0 {
                        1int
                    } else {
                        0
                    }),
                },
                Seq::empty(),
            ),
    {
        // A clone would stop the tail being written, and freeze the clip at whatever
        // it holds now, so the tail is ended before the clip goes out.
        self.settle_tail(index);
        let ghost mid = self@.audio;
        let ghost alone = choose|alone: bool|
            tail_settles(old(self)@.audio, index as int, alone, mid);
        assert(tail_settles(old(self)@.audio, index as int, alone, mid));
        let addr: SlotAddr = SlotAddr::of_index(index);
        let state: SlotState = self.session.state(addr);
        // A pad still recording has no finished audio to publish.
        if state.is_recording() {
            return (false, false);
        }
        assert(mid.clips[index as int] == clip_view(self.audio.clips@[index as int]));
        let clip: Arc<Clip<S>> = match &self.audio.clips[index] {
            Some(clip) => share(clip),
            None => {
                return (false, false);
            },
        };
        let snapshot = Snapshot {
            request,
            addr,
            state,
            launch_anchor: self.audio.anchors[index],
            clip,
        };
        let ghost sent = snapshot;
        assert(shows(sent, request, index as int, old(self)@.session, mid));
        let done: bool = self.audio.snapshots.publish(snapshot);
        proof {
            if done {
                assert(self@.audio.published.drop_last() =~= mid.published);
                assert(self@.audio.published.last() == sent);
            }
        }
        (true, done)
    }

    /// Publishes a reference to every pad that holds a clip.
    fn publish_snapshot<E: EventSink>(&mut self, request: u32, sink: &mut E)
        requires
            old(self).sound(),
        ensures
            final(self).sound(),
            old(self).parks(final(self)),
            grown(old(sink).log(), final(sink).log()),
            snapshots(old(self)@, request, final(self)@, since(old(sink).log(), final(sink).log())),
            final(self)@.audio.refused == old(self)@.audio.refused,
    {
        let mut published: u32 = 0;
        let mut expected: u32 = 0;
        let mut index: usize = 0;
        let ghost step = publish_step::<S>(request, self@.session);
        let ghost start = Publishing { audio: self@.audio, published: 0, expected: 0 };
        proof {
            chain_starts(step, start);
        }
        while index < PAD_COUNT
            invariant
                index <= 64,
                published <= expected <= index,
                self.sound(),
                old(self).parks(self),
                self@ == (EngineView { audio: self@.audio, ..old(self)@ }),
                self@.audio.refused == old(self)@.audio.refused,
                step == publish_step::<S>(request, old(self)@.session),
                start == (Publishing { audio: old(self)@.audio, published: 0, expected: 0 }),
                chained(
                    step,
                    start,
                    index as int,
                    Publishing {
                        audio: self@.audio,
                        published: published as int,
                        expected: expected as int,
                    },
                    Seq::empty(),
                ),
            decreases 64 - index,
        {
            let ghost mid = Publishing {
                audio: self@.audio,
                published: published as int,
                expected: expected as int,
            };
            let (due, done) = self.publish_pad(
                request,
                index,
                Ghost(published as int),
                Ghost(expected as int),
            );
            if due {
                expected += 1;
            }
            if done {
                published += 1;
            }
            proof {
                let to = Publishing {
                    audio: self@.audio,
                    published: published as int,
                    expected: expected as int,
                };
                assert(step(mid, index as int, to, Seq::empty()));
                chain_extends(step, start, index as int, mid, Seq::empty(), to, Seq::empty());
                assert(Seq::<Event>::empty() + Seq::<Event>::empty() =~= Seq::<Event>::empty());
            }
            index += 1;
        }
        let event = Event::SnapshotComplete { request, clips: published, expected };
        proof {
            since_push(sink.log(), event);
            assert(completion(request, published as int, expected as int) =~= seq![event]);
        }
        sink.event(event);
    }

    /// Reports the tempo, the signature and every pad's state again.
    fn resync<E: EventSink>(&self, sink: &mut E)
        requires
            self.sound(),
        ensures
            grown(old(sink).log(), final(sink).log()),
            since(old(sink).log(), final(sink).log()) == seq![
                Event::Tempo { bpm: self@.grid.tempo_at() },
                signature_report(self@.grid),
            ] + every_state(self@.session),
    {
        let ghost head = seq![
            Event::Tempo { bpm: self@.grid.tempo_at() },
            signature_report(self@.grid),
        ];
        sink.event(Event::Tempo { bpm: self.grid.tempo() });
        self.report_time_signature(sink);
        let mut index: usize = 0;
        proof {
            assert(sink.log() =~= old(sink).log() + head + every_state(self@.session).take(0));
        }
        while index < PAD_COUNT
            invariant
                index <= 64,
                self.sound(),
                sink.log() == old(sink).log() + head + every_state(self@.session).take(
                    index as int,
                ),
            decreases 64 - index,
        {
            let addr: SlotAddr = SlotAddr::of_index(index);
            sink.event(Event::SlotChanged { addr, state: self.session.state(addr) });
            index += 1;
            proof {
                assert(sink.log() =~= old(sink).log() + head + every_state(self@.session).take(
                    index as int,
                ));
            }
        }
        proof {
            assert(since(old(sink).log(), sink.log()) =~= head + every_state(self@.session));
        }
    }

    /// Takes the latest whole-state settings.
    ///
    /// A take in progress keeps the input it started on, and a clip already sounding
    /// keeps the anchor it was launched with.
    pub fn apply_settings(&mut self, settings: Settings)
        requires
            old(self).wf(),
        ensures
            final(self).wf(),
            old(self).parks(final(self)),
            final(self)@ == with_settings(old(self)@, settings),
            final(self)@.gains == settings.gains@,
            final(self)@.muted == settings.muted,
            final(self)@.soloed == settings.soloed,
            final(self)@.audio.inputs == settings.inputs@,
            final(self)@.audio.launch_modes == settings.launch_modes@,
            final(self)@.audio.pickups == settings.pickups@,
            final(self)@.grid == old(self)@.grid,
            final(self)@.session == old(self)@.session,
            final(self)@.audio.clips == old(self)@.audio.clips,
            final(self)@.audio.anchors == old(self)@.audio.anchors,
            final(self)@.audio.recordings == old(self)@.audio.recordings,
    {
        self.gains = settings.gains;
        self.muted = settings.muted;
        self.soloed = settings.soloed;
        self.audio.inputs = settings.inputs;
        self.audio.launch_modes = settings.launch_modes;
        self.audio.pickups = settings.pickups;
        assert(self@.audio.clips == old(self)@.audio.clips);
    }

    /// Applies a control instruction.
    ///
    /// Instructions take effect at the position the transport has reached, so they land
    /// at the start of the block they are drained in.
    pub fn handle<E: EventSink>(&mut self, command: Command, sink: &mut E)
        requires
            old(self).wf(),
            can_handle(old(self)@, command),
        ensures
            final(self).wf(),
            old(self).parks(final(self)),
            grown(old(sink).log(), final(sink).log()),
            handled(old(self)@, command, final(self)@, since(old(sink).log(), final(sink).log())),
    {
        let before: SessionModel = self.session;
        let ctx: Ctx = self.ctx();
        let ghost v = self@;
        proof {
            since_push(sink.log(), Event::TempoRejected);
        }
        match command {
            Command::Press(addr) => {
                let mut work: Vec<(SlotAddr, Effect)> = self.take_work();
                self.session.press(addr, &ctx, &mut work);
                let ghost states = self.session@;
                self.finish_work(work, sink, Ghost(v), Ghost(states));
            },
            Command::Clear(addr) => {
                let mut work: Vec<(SlotAddr, Effect)> = self.take_work();
                self.session.clear(addr, &ctx, &mut work);
                let ghost states = self.session@;
                assert(work@ =~= tagged(addr, cleared(v.session[addr.place()], v.position)));
                self.finish_work(work, sink, Ghost(v), Ghost(states));
            },
            Command::StopTrack(track) => {
                let mut work: Vec<(SlotAddr, Effect)> = self.take_work();
                self.session.stop_track(track, &ctx, &mut work);
                let ghost states = self.session@;
                let ghost from = track.num() * 8;
                assert(work@ =~= swept(v.session, always(SlotInput::Stop), ctx, from, from + 8));
                proof {
                    stopping_begins_nothing(
                        v.session,
                        always(SlotInput::Stop),
                        ctx,
                        from,
                        from + 8,
                    );
                }
                self.finish_work(work, sink, Ghost(v), Ghost(states));
            },
            Command::StopAll => {
                let mut work: Vec<(SlotAddr, Effect)> = self.take_work();
                self.session.stop_all(&ctx, &mut work);
                let ghost states = self.session@;
                assert(work@ =~= swept(v.session, always(SlotInput::Stop), ctx, 0, 64));
                proof {
                    stopping_begins_nothing(v.session, always(SlotInput::Stop), ctx, 0, 64);
                }
                self.finish_work(work, sink, Ghost(v), Ghost(states));
            },
            Command::ClearAll => self.defer(Deferred::ClearAll, sink),
            Command::Rewind => self.defer(Deferred::Rewind, sink),
            Command::Resync => self.resync(sink),
            Command::Snapshot { request } => self.publish_snapshot(request, sink),
            Command::SetPaused(paused) => self.set_paused(paused, sink),
            Command::SetClickEnabled(enabled) => self.click.set_enabled(enabled),
            Command::SetClickLevel(level) => self.click.set_level(level),
            Command::SetClickSubdivision(subdivision) => {
                self.subdivision = subdivision;
            },
            Command::SetTempo(tempo) => self.set_tempo(tempo, sink),
            Command::SetTimeSignature(signature) => self.set_time_signature(signature, sink),
            Command::SetSettings(settings) => self.apply_settings(settings),
        }
        let ghost log = sink.log();
        assert(commanded(v, command, self@, since(old(sink).log(), log)));
        self.emit_changes(&before, sink);
        proof {
            since_adds(old(sink).log(), log, sink.log());
        }
    }
}

/// Letting go of what a pad holds begins no take.
proof fn clearing_begins_nothing(addr: SlotAddr, state: SlotState, now: Frames)
    ensures
        begins_nothing(tagged(addr, cleared(state, now))),
{
    let work = tagged(addr, cleared(state, now));
    assert forall|i: int| 0 <= i < work.len() implies !((#[trigger] work[i]).1 is StartCapture) by {
        assert(work[i] == (addr, cleared(state, now)[i]));
    }
}

impl<S: Copy> Engine<S> {
    /// Empties any pad that was armed but could not be given storage.
    fn settle_refusals<E: EventSink>(&mut self, sink: &mut E)
        requires
            old(self).sound(),
        ensures
            final(self).sound(),
            old(self).parks(final(self)),
            grown(old(sink).log(), final(sink).log()),
            refusals_settle(old(self)@, final(self)@, since(old(sink).log(), final(sink).log())),
            final(self)@.audio.refused == 0,
            final(self)@ == (EngineView {
                session: final(self)@.session,
                audio: final(self)@.audio,
                ..old(self)@
            }),
    {
        let refused: PadMask = self.audio.refused;
        self.audio.refused = 0;
        let ghost start = EngineView {
            audio: AudioView { refused: 0, ..old(self)@.audio },
            ..old(self)@
        };
        let ghost step = refusal_step::<S>(refused);
        assert(self@ == start);
        let mut index: usize = 0;
        proof {
            chain_starts(step, start);
            since_push(sink.log(), Event::TempoRejected);
        }
        while index < PAD_COUNT
            invariant
                index <= 64,
                self.sound(),
                old(self).parks(self),
                self@.audio.refused == 0,
                start == (EngineView {
                    audio: AudioView { refused: 0, ..old(self)@.audio },
                    ..old(self)@
                }),
                step == refusal_step::<S>(refused),
                grown(old(sink).log(), sink.log()),
                chained(step, start, index as int, self@, since(old(sink).log(), sink.log())),
                self@ == (EngineView {
                    session: self@.session,
                    audio: self@.audio,
                    ..old(self)@
                }),
            decreases 64 - index,
        {
            let addr: SlotAddr = SlotAddr::of_index(index);
            let ghost mid = self@;
            let ghost log = sink.log();
            if refused & pad_bit(addr) != 0 {
                let ctx: Ctx = self.ctx();
                let mut work: Vec<(SlotAddr, Effect)> = self.take_work();
                self.session.clear(addr, &ctx, &mut work);
                proof {
                    assert(work@ =~= tagged(addr, cleared(mid.session[index as int], mid.position)));
                    clearing_begins_nothing(addr, mid.session[index as int], mid.position);
                }
                let ghost states = self.session@;
                self.finish_work(work, sink, Ghost(mid), Ghost(states));
                let ghost first = since(log, sink.log());
                sink.event(Event::RecordingRefused { addr });
                proof {
                    assert(since(log, sink.log()) =~= first.push(
                        Event::RecordingRefused { addr },
                    ));
                    assert(session_moves(
                        mid,
                        mid.session.update(index as int, SlotState::Empty),
                        tagged(addr, cleared(mid.session[index as int], mid.position)),
                        self@,
                        first,
                    ));
                }
            } else {
                proof {
                    since_push(log, Event::TempoRejected);
                }
            }
            proof {
                let here = since(log, sink.log());
                since_adds(old(sink).log(), log, sink.log());
                assert(step(mid, index as int, self@, here));
                chain_extends(
                    step,
                    start,
                    index as int,
                    mid,
                    since(old(sink).log(), log),
                    self@,
                    here,
                );
            }
            index += 1;
        }
    }

    /// Clicks the bar is cut into.
    fn clicks_per_bar(&self) -> (r: u32)
        ensures
            r == clicks(self@),
            r > 0,
    {
        self.subdivision.clicks_per_bar(self.grid.time_signature())
    }

    /// The blip that sounds at the transport's position, if one does.
    fn due_tone(&self) -> (r: Option<Tone>)
        requires
            self.sound(),
        ensures
            r == tone_at(self@),
    {
        if !self.grid.on_slice(self.position, self.clicks_per_bar()) {
            return None;
        }
        let (_, beat) = self.grid.beat_of(self.position);
        if !self.on_beat() {
            Some(Tone::Sub)
        } else if beat == 0 {
            Some(Tone::Accent)
        } else {
            Some(Tone::Beat)
        }
    }

    /// Whether the transport is exactly on a beat.
    fn on_beat(&self) -> (r: bool)
        requires
            self.sound(),
        ensures
            r == self@.grid.is_cut(self@.position.0 as int, self@.grid.beats()),
    {
        self.grid.on_slice(self.position, self.grid.time_signature().beats_per_bar())
    }

    /// Fires anything scheduled for the exact frame the transport has reached.
    fn reach_boundary<E: EventSink>(&mut self, sink: &mut E)
        requires
            old(self).wf(),
        ensures
            final(self).wf(),
            old(self).parks(final(self)),
            grown(old(sink).log(), final(sink).log()),
            reaches_boundary(old(self)@, final(self)@, since(old(sink).log(), final(sink).log())),
            final(self)@.grid == old(self)@.grid,
            final(self)@.position == old(self)@.position,
            final(self)@.subdivision == old(self)@.subdivision,
            final(self)@.click == old(self)@.click,
    {
        let ghost v = self@;
        proof {
            since_push(sink.log(), Event::TempoRejected);
        }
        if !self.on_beat() || self.last_boundary == Some(self.position) {
            return ;
        }
        self.last_boundary = Some(self.position);
        let (bar, beat) = self.grid.beat_of(self.position);
        if beat == 0 {
            sink.event(Event::Bar { bar });
        }
        sink.event(Event::Beat { bar, beat });
        let ghost head = sink.log();
        proof {
            assert(grown(old(sink).log(), head));
            assert(since(old(sink).log(), head) =~= beat_report(v.grid, v.position.0 as int));
        }
        let before: SessionModel = self.session;
        let ctx: Ctx = self.ctx();
        let mut work: Vec<(SlotAddr, Effect)> = self.take_work();
        let ghost marked = self@;
        self.session.advance(&ctx, &mut work);
        assert(work@ =~= swept(v.session, always(SlotInput::Advance), v.moment(), 0, 64));
        let ghost states = self.session@;
        self.finish_work(work, sink, Ghost(marked), Ghost(states));
        let ghost mid = self@;
        let ghost log = sink.log();
        let ghost first = since(head, log);
        assert(advances(v, mid, first));
        self.settle_refusals(sink);
        let ghost settled = sink.log();
        let ghost second = since(log, settled);
        self.emit_changes(&before, sink);
        proof {
            since_adds(head, log, settled);
            since_adds(head, settled, sink.log());
            since_adds(old(sink).log(), head, sink.log());
            let all = since(old(sink).log(), sink.log());
            let last = changes(v.session, self@.session, 64);
            assert(all =~= beat_report(v.grid, v.position.0 as int) + first + second + last);
            assert(refusals_settle(mid, self@, second));
        }
    }

    /// Starts a run of at most `left` frames: fires what is due at the frame the transport has
    /// reached, and says how far the transport goes before anything else is.
    pub fn next_run<E: EventSink>(&mut self, left: usize, sink: &mut E) -> (r: Run)
        requires
            old(self).wf(),
            old(self)@.position.0 + old(self)@.grid.bar() <= u64::MAX,
        ensures
            final(self).wf(),
            old(self).parks(final(self)),
            grown(old(sink).log(), final(sink).log()),
            starts_run(
                old(self)@,
                left as int,
                final(self)@,
                since(old(sink).log(), final(sink).log()),
                r,
            ),
            left > 0 ==> r.frames > 0,
            r.frames <= left,
            final(self)@.position == old(self)@.position,
    {
        let ghost v = self@;
        self.reach_boundary(sink);
        let ghost mid = self@;
        let due: Option<Tone> = self.due_tone();
        let mut tone: Option<Tone> = None;
        if let Some(sounding) = due {
            if self.click.trigger(sounding) {
                tone = Some(sounding);
            }
        }
        let count: u32 = self.clicks_per_bar();
        proof {
            let pos = self@.position.0 as int;
            cut_in_bar(self@.grid, pos, self@.grid.beats());
            cut_in_bar(self@.grid, pos, count as int);
        }
        let beat: Frames = self.grid.next_beat_boundary(self.position);
        let click: Frames = self.grid.next_slice(self.position, count);
        let next: Frames = beat.earlier(click);
        let ahead: usize = as_usize(next.0 - self.position.0);
        let frames: usize = if ahead < left {
            ahead
        } else {
            left
        };
        proof {
            assert((EngineView { click: v.click, ..self@ }) == mid);
        }
        Run { frames, tone }
    }
}

/// The next cut of a bar is past the position, and no further than the next bar line.
proof fn cut_in_bar(grid: BarGrid, pos: int, cuts: int)
    requires
        grid.wf(),
        0 <= pos,
        cuts > 0,
    ensures
        pos < grid.cut_after(pos, cuts) <= pos + grid.bar(),
{
    crate::grid::next_cut_is_next(grid, pos, cuts, 0);
    crate::grid::lines_bracket(grid, pos);
}

/// What a pad plays over a run.
pub struct Voice<'a, S> {
    /// The gain it is heading for, as the bits of a single precision number. Zero for anything
    /// not being heard.
    pub target: u32,
    /// The clip it plays.
    pub clip: Option<&'a Clip<S>>,
    /// Where the clip is anchored.
    pub anchor: Frames,
    /// How many frames of the loop's opening come from its tail.
    pub pickup: Frames,
}

/// The gain a pad is heading for: nothing while a transport move waits for the mix to fade,
/// and for a pad that is not sounding or would not be heard.
pub open spec fn target_gain<S>(v: EngineView<S>, addr: SlotAddr) -> u32 {
    if v.pending is None && v.session[addr.place()].sounding() && v.audible(addr.place()) {
        ladder(v.gains[addr.track.num()] as int)
    } else {
        0
    }
}

impl<S: Copy> Engine<S> {
    /// The transport position, in frames from the origin.
    pub fn position(&self) -> (r: Frames)
        ensures
            r == self@.position,
    {
        self.position
    }

    /// The current bar grid.
    pub fn grid(&self) -> (r: BarGrid)
        ensures
            r == self@.grid,
    {
        self.grid
    }

    /// What a pad is doing.
    pub fn state(&self, addr: SlotAddr) -> (r: SlotState)
        ensures
            r == self@.session[addr.place()],
    {
        self.session.state(addr)
    }

    /// Audio a pad's clip holds past its loop.
    pub fn clip_tail(&self, addr: SlotAddr) -> (r: Frames)
        requires
            self.wf(),
        ensures
            r.0 == (match self@.audio.clips[addr.place()] {
                Some(clip) => clip.tail,
                None => 0,
            }),
    {
        let index: usize = addr.index();
        assert(self@.audio.clips[index as int] == clip_view(self.audio.clips@[index as int]));
        match &self.audio.clips[index] {
            Some(clip) => clip.tail(),
            None => Frames(0),
        }
    }

    /// Segments still available for recording.
    pub fn segments_available(&self) -> (r: usize)
        ensures
            r == self@.audio.pool.spare(),
    {
        self.audio.segments.available()
    }

    /// Whether the transport is frozen.
    pub fn is_paused(&self) -> (r: bool)
        ensures
            r == self@.paused,
    {
        self.paused
    }

    /// How loud a track plays, as the bits of a single precision number.
    pub fn gain(&self, track: TrackId) -> (r: u32)
        ensures
            r == ladder(self@.gains[track.num()] as int),
    {
        gain_for_step(self.gains[track.index()])
    }

    /// Whether a pad would be heard if it were playing.
    ///
    /// A solo anywhere silences everything outside it.
    pub fn is_audible(&self, addr: SlotAddr) -> (r: bool)
        ensures
            r == self@.audible(addr.place()),
    {
        let bit: PadMask = pad_bit(addr);
        if self.muted & bit != 0 {
            return false;
        }
        self.soloed == 0 || self.soloed & bit != 0
    }

    /// Frames a level takes to travel the full gain range.
    pub fn declick(&self) -> (r: usize)
        ensures
            r == self@.declick,
    {
        self.declick
    }

    /// Channels of the interleaved output.
    pub fn channels(&self) -> (r: usize)
        ensures
            r == self@.channels,
    {
        self.channels
    }

    /// Channels of the interleaved input.
    pub fn capture_channels(&self) -> (r: usize)
        ensures
            r == self@.capture_channels,
    {
        self.capture_channels
    }

    /// The round-trip latency being compensated for.
    pub fn capture_offset(&self) -> (r: Frames)
        ensures
            r == self@.audio.capture_offset,
    {
        self.audio.capture_offset
    }

    /// Sets the round-trip latency to compensate for.
    ///
    /// Captured audio arrives this many frames after it was played. The clip is stamped
    /// as having started that much earlier.
    ///
    /// Takes effect on the next recording sealed.
    pub fn set_capture_offset(&mut self, offset: Frames)
        requires
            old(self).wf(),
        ensures
            final(self).wf(),
            old(self).parks(final(self)),
            final(self)@ == (EngineView {
                audio: AudioView { capture_offset: offset, ..old(self)@.audio },
                ..old(self)@
            }),
    {
        self.audio.capture_offset = offset;
        assert(self@.audio.clips == old(self)@.audio.clips);
    }

    /// Whether the mix was cut to silence since this was last asked, so that every level
    /// starts over from nothing.
    pub fn take_silenced(&mut self) -> (r: bool)
        requires
            old(self).wf(),
        ensures
            final(self).wf(),
            old(self).parks(final(self)),
            r == old(self)@.silenced,
            final(self)@ == (EngineView { silenced: false, ..old(self)@ }),
    {
        let silenced: bool = self.silenced;
        self.silenced = false;
        silenced
    }

    /// The gain a pad should be heading for, as the bits of a single precision number. Zero
    /// for anything not being heard.
    fn target_level(&self, addr: SlotAddr) -> (r: u32)
        ensures
            r == target_gain(self@, addr),
    {
        // A transport move fades everything out first.
        if self.pending.is_some() {
            return 0;
        }
        if !self.session.state(addr).is_sounding() || !self.is_audible(addr) {
            return 0;
        }
        self.gain(addr.track)
    }

    /// What a pad plays over the coming run.
    pub fn voice(&self, addr: SlotAddr) -> (r: Voice<'_, S>)
        requires
            self.wf(),
        ensures
            r.target == target_gain(self@, addr),
            match r.clip {
                Some(clip) => self@.audio.clips[addr.place()] == Some(clip@) && clip@.wf(),
                None => self@.audio.clips[addr.place()] is None,
            },
            r.anchor == (match self@.audio.anchors[addr.place()] {
                Some(anchor) => anchor,
                None => match r.clip {
                    Some(clip) => Frames(clip@.recorded_at as u64),
                    None => Frames(0),
                },
            }),
            r.pickup.0 == cut_offset(
                self@.grid.bar(),
                self@.audio.pickups[addr.track.num()] as int,
                self@.grid.beats(),
            ),
    {
        let index: usize = addr.index();
        assert(self@.audio.clips[index as int] == clip_view(self.audio.clips@[index as int]));
        let clip: Option<&Clip<S>> = match &self.audio.clips[index] {
            Some(clip) => Some(&**clip),
            None => None,
        };
        let recorded_at: Frames = match clip {
            Some(clip) => clip.recorded_at(),
            None => Frames(0),
        };
        let anchor: Frames = match self.audio.anchors[index] {
            Some(anchor) => anchor,
            None => recorded_at,
        };
        let beats: u32 = self.audio.pickups[addr.track.index()] as u32;
        Voice {
            target: self.target_level(addr),
            clip,
            anchor,
            pickup: self.grid.beat_offset(beats),
        }
    }
}

impl<S: Copy> Engine<S> {
    /// Captures a run for every pad. Returns the pads whose tail is complete and those whose
    /// take has to end, because storage has run out.
    fn capture<E: EventSink>(
        &mut self,
        captured: &[S],
        run: usize,
        sink: &mut E,
    ) -> (r: (PadMask, PadMask))
        requires
            old(self).sound(),
            captured@.len() as int / old(self)@.capture_channels <= run,
        ensures
            final(self).sound(),
            old(self).parks(final(self)),
            grown(old(sink).log(), final(sink).log()),
            final(self)@ == (EngineView { audio: final(self)@.audio, ..old(self)@ }),
            final(self)@.audio.refused == old(self)@.audio.refused,
            chained(
                capture_step(captured@, old(self)@.capture_channels, run as int),
                Capturing { audio: old(self)@.audio, tailed: 0, out: 0 },
                64,
                Capturing { audio: final(self)@.audio, tailed: r.0, out: r.1 },
                since(old(sink).log(), final(sink).log()),
            ),
    {
        let mut tailed: PadMask = 0;
        let mut out: PadMask = 0;
        let channels: usize = self.capture_channels;
        let ghost step = capture_step::<S>(captured@, channels as int, run as int);
        let ghost start = Capturing { audio: self@.audio, tailed: 0, out: 0 };
        let mut index: usize = 0;
        proof {
            chain_starts(step, start);
            since_push(sink.log(), Event::TempoRejected);
        }
        while index < PAD_COUNT
            invariant
                index <= 64,
                self.sound(),
                old(self).parks(self),
                channels == self@.capture_channels,
                captured@.len() as int / channels as int <= run,
                self@ == (EngineView { audio: self@.audio, ..old(self)@ }),
                self@.audio.refused == old(self)@.audio.refused,
                step == capture_step::<S>(captured@, channels as int, run as int),
                start == (Capturing { audio: old(self)@.audio, tailed: 0, out: 0 }),
                grown(old(sink).log(), sink.log()),
                chained(
                    step,
                    start,
                    index as int,
                    Capturing { audio: self@.audio, tailed, out },
                    since(old(sink).log(), sink.log()),
                ),
            decreases 64 - index,
        {
            let ghost mid = Capturing { audio: self@.audio, tailed, out };
            let ghost log = sink.log();
            let addr: SlotAddr = SlotAddr::of_index(index);
            let made = self.audio.capture(index, captured, channels, run);
            if made.tailed {
                tailed = tailed | pad_bit(addr);
            }
            if made.out_of_room {
                out = out | pad_bit(addr);
            }
            proof {
                since_push(log, Event::RecordBufferLow { addr });
            }
            if made.low {
                sink.event(Event::RecordBufferLow { addr });
            }
            proof {
                let to = Capturing { audio: self@.audio, tailed, out };
                let here = since(log, sink.log());
                since_adds(old(sink).log(), log, sink.log());
                let backed = made.backed as int;
                let alone = choose|alone: bool|
                    captures(
                        mid.audio,
                        index as int,
                        captured@,
                        channels as int,
                        run as int,
                        alone,
                        to.audio,
                        backed,
                    );
                assert(captures(
                    mid.audio,
                    index as int,
                    captured@,
                    channels as int,
                    run as int,
                    alone,
                    to.audio,
                    backed,
                ));
                assert(step(mid, index as int, to, here));
                chain_extends(
                    step,
                    start,
                    index as int,
                    mid,
                    since(old(sink).log(), log),
                    to,
                    here,
                );
            }
            index += 1;
        }
        (tailed, out)
    }

    /// Ends the recordings whose tail is complete, telling each clip how much it holds.
    fn settle_tails(&mut self, tailed: PadMask)
        requires
            old(self).sound(),
        ensures
            final(self).sound(),
            old(self).parks(final(self)),
            final(self)@ == (EngineView { audio: final(self)@.audio, ..old(self)@ }),
            final(self)@.audio.refused == old(self)@.audio.refused,
            chained(
                tail_step(tailed),
                old(self)@.audio,
                64,
                final(self)@.audio,
                Seq::empty(),
            ),
    {
        let mut index: usize = 0;
        let ghost step = tail_step::<S>(tailed);
        let ghost start = self@.audio;
        proof {
            chain_starts(step, start);
        }
        while index < PAD_COUNT
            invariant
                index <= 64,
                self.sound(),
                old(self).parks(self),
                self@ == (EngineView { audio: self@.audio, ..old(self)@ }),
                self@.audio.refused == old(self)@.audio.refused,
                step == tail_step::<S>(tailed),
                start == old(self)@.audio,
                chained(step, start, index as int, self@.audio, Seq::empty()),
            decreases 64 - index,
        {
            let ghost mid = self@.audio;
            let addr: SlotAddr = SlotAddr::of_index(index);
            if tailed & pad_bit(addr) != 0 {
                self.settle_tail(index);
            }
            proof {
                assert(step(mid, index as int, self@.audio, Seq::empty()));
                chain_extends(
                    step,
                    start,
                    index as int,
                    mid,
                    Seq::empty(),
                    self@.audio,
                    Seq::empty(),
                );
                assert(Seq::<Event>::empty() + Seq::<Event>::empty() =~= Seq::<Event>::empty());
            }
            index += 1;
        }
    }

    /// Ends one take that ran out of storage.
    fn cut_pad(&mut self, index: usize, recording: Recording)
        requires
            old(self).sound(),
            index < 64,
            old(self)@.audio.recordings[index as int] == Some(recording),
        ensures
            final(self).sound(),
            old(self).parks(final(self)),
            cuts_pad(old(self)@, index as int, recording, final(self)@),
    {
        let addr: SlotAddr = SlotAddr::of_index(index);
        let bar: u64 = self.audio.bar_frames;
        let bars: u64 = recording.written / bar;
        if bars == 0 {
            // Nothing whole to keep.
            self.audio.stop_recording(index);
            let ghost cut = self@.audio;
            self.audio.let_go(index);
            let ghost gone = self@.audio;
            proof {
                let alone = choose|alone: bool| lets_go(cut, index as int, alone, gone);
                assert(lets_go(cut, index as int, alone, gone));
                assert(gone.refused == cut.refused);
                assert(settled_parts(cut, gone));
            }
            self.audio.refuse(addr);
            proof {
                let alone = choose|alone: bool| lets_go(cut, index as int, alone, gone);
                let now = AudioView { refused: old(self)@.audio.refused, ..self@.audio };
                assert(now == gone);
                assert(lets_go(cut, index as int, alone, now));
            }
            return ;
        }
        proof {
            assert(bars * bar <= recording.written) by {
                vstd::arithmetic::div_mod::lemma_fundamental_div_mod(
                    recording.written as int,
                    bar as int,
                );
                vstd::arithmetic::div_mod::lemma_mod_bound(recording.written as int, bar as int);
                assert(bar * bars == bars * bar) by (nonlinear_arith);
            }
        }
        let at: Frames = Frames(recording.started_at.0.saturating_add(bars * bar));
        self.session.finish_recording_at(addr, at);
    }

    /// Ends the takes that ran out of storage, at the last whole bar each one holds.
    ///
    /// A take with no whole bar behind it goes back.
    fn cut_short<E: EventSink>(&mut self, out: PadMask, sink: &mut E)
        requires
            old(self).wf(),
        ensures
            final(self).wf(),
            old(self).parks(final(self)),
            grown(old(sink).log(), final(sink).log()),
            cuts_short(old(self)@, out, final(self)@, since(old(sink).log(), final(sink).log())),
            final(self)@ == (EngineView {
                session: final(self)@.session,
                audio: final(self)@.audio,
                ..old(self)@
            }),
    {
        proof {
            since_push(sink.log(), Event::TempoRejected);
        }
        if out == 0 {
            return ;
        }
        let before: SessionModel = self.session;
        let mut index: usize = 0;
        let ghost step = cut_step::<S>(out);
        let ghost start = self@;
        proof {
            chain_starts(step, start);
        }
        while index < PAD_COUNT
            invariant
                index <= 64,
                self.sound(),
                old(self).parks(self),
                step == cut_step::<S>(out),
                start == old(self)@,
                chained(step, start, index as int, self@, Seq::empty()),
                self@ == (EngineView {
                    session: self@.session,
                    audio: self@.audio,
                    ..old(self)@
                }),
            decreases 64 - index,
        {
            let ghost mid = self@;
            let addr: SlotAddr = SlotAddr::of_index(index);
            if out & pad_bit(addr) != 0 {
                if let Some(recording) = self.audio.recordings[index] {
                    self.cut_pad(index, recording);
                }
            }
            proof {
                assert(step(mid, index as int, self@, Seq::empty()));
                chain_extends(step, start, index as int, mid, Seq::empty(), self@, Seq::empty());
                assert(Seq::<Event>::empty() + Seq::<Event>::empty() =~= Seq::<Event>::empty());
            }
            index += 1;
        }
        let ghost mid = self@;
        self.settle_refusals(sink);
        let ghost log = sink.log();
        let ghost first = since(old(sink).log(), log);
        self.emit_changes(&before, sink);
        proof {
            since_adds(old(sink).log(), log, sink.log());
            assert(refusals_settle(mid, self@, first));
        }
    }

    /// Finishes a run: captures its input, and moves the transport on.
    ///
    /// `input` is the whole block's, interleaved at the capture channel count, and the run
    /// starts `offset` frames into the block. Frames the device did not deliver are recorded
    /// as silence, so a loop keeps its length. Returns what is left of the click's blip to
    /// sound over the run.
    pub fn finish_run<E: EventSink>(
        &mut self,
        input: &[S],
        offset: usize,
        run: usize,
        sink: &mut E,
    ) -> (r: Blip)
        requires
            old(self).wf(),
            old(self)@.position.0 + run <= u64::MAX,
            offset + run <= usize::MAX,
        ensures
            final(self).wf(),
            old(self).parks(final(self)),
            grown(old(sink).log(), final(sink).log()),
            finishes_run(
                old(self)@,
                input@,
                offset as int,
                run as int,
                final(self)@,
                since(old(sink).log(), final(sink).log()),
            ),
            r.frames == old(self)@.click.sounding(run as int),
            r.remaining == old(self)@.click.left(),
            r.length == old(self)@.click.whole(),
            r.level == old(self)@.click.peak(),
    {
        let ghost v = self@;
        let channels: usize = self.capture_channels;
        let len: usize = input.len();
        let frames: usize = len / channels;
        let ghost wanted = delivered(input@, channels as int, offset as int, run as int);
        // A device that delivers nothing at all leaves the input empty, so the run can start
        // past its end.
        let from: usize = if offset < frames {
            offset
        } else {
            frames
        };
        let to: usize = if frames - from < run {
            frames
        } else {
            from + run
        };
        proof {
            slice_bounds(len as int, channels as int, from as int, to as int);
        }
        let captured: &[S] = slice_subrange(input, from * channels, to * channels);
        proof {
            assert(captured@ =~= wanted);
            span_frames(from as int, to as int, channels as int);
            assert(captured@.len() as int / channels as int == to - from);
        }
        let (tailed, out) = self.capture(captured, run, sink);
        let ghost mid = Capturing { audio: self@.audio, tailed, out };
        let ghost log = sink.log();
        let ghost first = since(old(sink).log(), log);
        self.settle_tails(tailed);
        let ghost audio = self@.audio;
        self.cut_short(out, sink);
        let ghost cut = self@;
        let ghost second = since(log, sink.log());
        let blip: Blip = self.click.play(run);
        self.position = Frames(self.position.0 + run as u64);
        proof {
            since_adds(old(sink).log(), log, sink.log());
            assert(captured_run(v, input@, offset as int, run as int, mid, first));
            assert(tails_end(mid, audio));
            assert((EngineView { click: v.click, position: v.position, ..self@ }) == cut);
            assert(cuts_short(EngineView { audio, ..v }, mid.out, cut, second));
            assert(since(old(sink).log(), sink.log()) == first + second);
        }
        blip
    }

    /// Reports the MIDI clock ticks crossed by the block.
    ///
    /// A block is shorter than a tick at any usable tempo, so these arrive spaced.
    pub fn end_block<E: EventSink>(&mut self, sink: &mut E)
        requires
            old(self).wf(),
        ensures
            final(self).wf(),
            old(self).parks(final(self)),
            grown(old(sink).log(), final(sink).log()),
            reports_clock(old(self)@, final(self)@, since(old(sink).log(), final(sink).log())),
            ({
                let v = old(self)@;
                let now = clock_at(v.grid, v.position.0 as int);
                v.last_clock <= now && v.clock_total + (now - v.last_clock) <= u64::MAX
                    ==> final(self)@.clock_total - v.clock_total == now - v.last_clock
            }),
    {
        let now: u64 = self.grid.clock_ticks_at(self.position);
        let ticks: u64 = now.saturating_sub(self.last_clock);
        proof {
            since_push(sink.log(), Event::TempoRejected);
        }
        if ticks == 0 {
            return ;
        }
        self.last_clock = now;
        self.clock_total = self.clock_total.saturating_add(ticks);
        proof {
            since_push(sink.log(), Event::Clock { total: self.clock_total });
        }
        sink.event(Event::Clock { total: self.clock_total });
    }
}

/// Whole frames of a list are inside it.
proof fn slice_bounds(len: int, channels: int, from: int, to: int)
    requires
        0 <= len,
        0 < channels,
        0 <= from <= to <= len / channels,
    ensures
        0 <= from * channels <= to * channels <= len,
{
    vstd::arithmetic::div_mod::lemma_fundamental_div_mod(len, channels);
    vstd::arithmetic::div_mod::lemma_mod_bound(len, channels);
    let frames = len / channels;
    assert(0 <= from * channels <= to * channels <= channels * frames) by (nonlinear_arith)
        requires
            0 <= from <= to <= frames,
            0 < channels,
    ;
}

/// The samples of a stretch of frames make up that many frames.
proof fn span_frames(from: int, to: int, channels: int)
    requires
        0 <= from <= to,
        0 < channels,
    ensures
        (to * channels - from * channels) / channels == to - from,
{
    assert(to * channels - from * channels == (to - from) * channels) by (nonlinear_arith);
    vstd::arithmetic::div_mod::lemma_div_by_multiple(to - from, channels);
}

impl<S: Copy> Engine<S> {
    /// Puts what arrived for one pad in place of whatever it held.
    fn install(&mut self, index: usize)
        requires
            old(self).sound(),
            index < 64,
        ensures
            final(self).sound(),
            old(self).parks(final(self)),
            commit_step()(old(self)@, index as int, final(self)@, Seq::empty()),
            final(self)@ == (EngineView {
                session: final(self)@.session,
                audio: final(self)@.audio,
                ..old(self)@
            }),
            final(self)@.audio.staged_grid == old(self)@.audio.staged_grid,
            final(self)@.audio.receiving == old(self)@.audio.receiving,
            final(self)@.audio.refused == old(self)@.audio.refused,
    {
        let addr: SlotAddr = SlotAddr::of_index(index);
        // A take left running would write live input into whatever the load puts on
        // that pad.
        self.audio.stop_recording(index);
        let ghost cut = self@.audio;
        self.audio.let_go(index);
        let ghost mid = self@.audio;
        proof {
            let alone = choose|alone: bool| lets_go(cut, index as int, alone, mid);
            assert(lets_go(cut, index as int, alone, mid));
            assert(settled_parts(cut, mid));
            assert(mid.recordings == cut.recordings);
        }
        let ghost base = EngineView { audio: mid, ..old(self)@ };
        self.audio.anchors.set(index, None);
        self.session.mirror(addr, SlotState::Empty);
        assert(self@.audio.staged[index as int] == staged_view(self.audio.staged@[index as int]));
        let ghost now = self@.audio;
        let slot: Option<StagedClip<S>> = self.audio.staged[index].take();
        assert(self@.audio.staged =~= now.staged.update(index as int, None));
        match slot {
            None => {
                assert(self@.audio.staged =~= now.staged);
                assert(self@ == installed(base, index as int));
            },
            Some(staged) => {
                let ghost arrived = staged_view(Some(staged))->Some_0;
                let id: ClipId = self.audio.next_clip_id;
                self.audio.next_clip_id = id.next();
                // Loaded audio brings its own storage, so nothing is drawn from the pool.
                let StagedClip { clip, playing, launch_anchor } = staged;
                self.audio.put_clip(index, clip);
                self.audio.anchors.set(index, launch_anchor);
                self.session.mirror(
                    addr,
                    if playing {
                        SlotState::Playing { clip: id }
                    } else {
                        SlotState::Stopped { clip: id }
                    },
                );
                proof {
                    let goal = installed(base, index as int);
                    assert(self@.session =~= goal.session);
                    assert(self@.audio.anchors =~= goal.audio.anchors);
                    assert(self@ == goal);
                }
            },
        }
    }

    /// Puts a fully arrived load in place of whatever is loaded now.
    fn commit_load<E: EventSink>(&mut self, sink: &mut E)
        requires
            old(self).sound(),
        ensures
            final(self).sound(),
            old(self).parks(final(self)),
            grown(old(sink).log(), final(sink).log()),
            commits(old(self)@, final(self)@, since(old(sink).log(), final(sink).log())),
            final(self)@.audio.refused == old(self)@.audio.refused,
    {
        let mut index: usize = 0;
        let ghost step = commit_step::<S>();
        let ghost start = self@;
        proof {
            chain_starts(step, start);
            since_push(sink.log(), Event::TempoRejected);
        }
        while index < PAD_COUNT
            invariant
                index <= 64,
                self.sound(),
                old(self).parks(self),
                step == commit_step::<S>(),
                start == old(self)@,
                chained(step, start, index as int, self@, Seq::empty()),
                self@.audio.staged_grid == old(self)@.audio.staged_grid,
                self@.audio.refused == old(self)@.audio.refused,
            decreases 64 - index,
        {
            let ghost mid = self@;
            self.install(index);
            proof {
                chain_extends(step, start, index as int, mid, Seq::empty(), self@, Seq::empty());
                assert(Seq::<Event>::empty() + Seq::<Event>::empty() =~= Seq::<Event>::empty());
            }
            index += 1;
        }
        let ghost mid = self@;
        let ghost quiet_log = sink.log();
        // Only the transport's start matters from here on.
        self.position = Frames(0);
        // A move queued against the session just replaced would run against the new one, and
        // the mix it was waiting on is cut already.
        self.pending = None;
        // A load arrives against a grid the performer has not heard yet, so it waits.
        self.paused = true;
        self.silenced = true;
        let taken: Option<BarGrid> = self.audio.staged_grid.take();
        if let Some(grid) = taken {
            proof {
                use_type_invariant(&grid);
            }
            self.set_grid(grid);
            self.report_time_signature(sink);
            proof {
                since_push(quiet_log, signature_report(grid));
            }
        }
        let ghost ready = self@;
        let ghost log = sink.log();
        assert(ready == regridded_at_start(mid));
        self.rewind(sink);
        let ghost first = since(log, sink.log());
        proof {
            since_adds(old(sink).log(), log, sink.log());
            assert(rewinds(regridded_at_start(mid), self@, first));
            if taken is None {
                assert(since(old(sink).log(), sink.log()) =~= first);
            }
        }
    }

    /// Puts a complete load in place, or refuses it whole.
    fn settle_load<E: EventSink>(&mut self, sink: &mut E)
        requires
            old(self).wf(),
        ensures
            final(self).wf(),
            old(self).parks(final(self)),
            grown(old(sink).log(), final(sink).log()),
            settles_load(old(self)@, final(self)@, since(old(sink).log(), final(sink).log())),
    {
        let before: SessionModel = self.session;
        // Checked before the grid is replaced.
        let wanted: usize = self.audio.staged_segments();
        let allowed: usize = self.audio.segments.capacity();
        if wanted > allowed {
            self.audio.abandon();
            let event = Event::LoadRefused { wanted: as_u32(wanted), allowed: as_u32(allowed) };
            proof {
                since_push(sink.log(), event);
            }
            sink.event(event);
            return ;
        }
        let ghost v = self@;
        self.commit_load(sink);
        let ghost log = sink.log();
        let ghost first = since(old(sink).log(), log);
        self.emit_changes(&before, sink);
        proof {
            since_adds(old(sink).log(), log, sink.log());
            assert(commits(v, self@, first));
        }
    }

    /// Takes in anything the loader has queued, and settles a load that is complete.
    ///
    /// Staged, not applied as it arrives: the grid changes once, when all of it is in.
    fn apply_loads<E: EventSink>(&mut self, sink: &mut E)
        requires
            old(self).wf(),
        ensures
            final(self).wf(),
            old(self).parks(final(self)),
            grown(old(sink).log(), final(sink).log()),
            applies_loads(old(self)@, final(self)@, since(old(sink).log(), final(sink).log())),
    {
        let mut complete: bool = false;
        let ghost mut messages: Seq<LoadMessage<S>> = Seq::empty();
        let mut more: bool = true;
        // The queue holds a bounded number, so a block takes at most that many.
        let mut left: usize = SLOTS;
        proof {
            since_push(sink.log(), Event::TempoRejected);
            assert(old(self)@.received + messages =~= old(self)@.received);
        }
        while more && left > 0
            invariant
                self.wf(),
                old(self).parks(self),
                sink.log() == old(sink).log(),
                more ==> !complete,
                more ==> messages.len() == 0 || !(messages.last() is End),
                more ==> messages.len() + left == SLOTS,
                takes_in(old(self)@.audio, messages, self@.audio, complete),
                self@ == (EngineView {
                    received: old(self)@.received + messages,
                    idle: self@.idle,
                    audio: self@.audio,
                    ..old(self)@
                }),
                more ==> self@.idle == old(self)@.idle,
                !more ==> self@ == arrived(old(self)@, messages, self@.audio),
            decreases left,
        {
            let ghost mid = self@.audio;
            let ghost earlier = messages;
            match self.loads.pop() {
                None => {
                    more = false;
                },
                Some(message) => {
                    let ghost came = message;
                    proof {
                        messages = messages.push(came);
                        assert(messages.drop_last() =~= earlier);
                        assert(self@.received =~= old(self)@.received + messages);
                    }
                    // Anything queued behind an end is the next load, left for the next block
                    // so this one goes in first.
                    if let LoadMessage::End = &message {
                        more = false;
                    }
                    complete = self.audio.receive(message);
                    proof {
                        let alone = choose|alone: bool|
                            receives(mid, came, alone, self@.audio, complete);
                        assert(receives(mid, messages.last(), alone, self@.audio, complete));
                        assert(takes_in(old(self)@.audio, messages, self@.audio, complete));
                        assert(self@.audio.refused == mid.refused);
                    }
                },
            }
            left -= 1;
        }
        let ghost taken = self@;
        assert(taken == arrived(old(self)@, messages, taken.audio));
        if complete {
            self.settle_load(sink);
        }
        proof {
            assert(takes_in(old(self)@.audio, messages, taken.audio, complete));
        }
    }

    /// Begins a block: takes back what the recycler has released, applies what the loader has
    /// queued, and lands a transport move that waited for the mix to fade. What there was no room
    /// to hand over before is handed over again, and stays parked only where there is still none.
    ///
    /// `faded` says whether the mix has reached silence. Returns whether the transport runs. A
    /// frozen transport holds its position, so nothing sounds, nothing is captured and no bar
    /// line arrives. Input that is short of the block is reported, and missing frames are
    /// treated as silence.
    pub fn begin_block<E: EventSink>(
        &mut self,
        faded: bool,
        frames: usize,
        input_frames: usize,
        sink: &mut E,
    ) -> (r: bool)
        requires
            old(self).wf(),
        ensures
            final(self).wf(),
            final(self).crowded() >= old(self).crowded(),
            final(self).parked().len() > 0 ==> final(self).crowded() > old(self).crowded(),
            grown(old(sink).log(), final(sink).log()),
            begins_block(
                old(self)@,
                faded,
                frames as int,
                input_frames as int,
                final(self)@,
                since(old(sink).log(), final(sink).log()),
            ),
            r == !final(self)@.paused,
    {
        let ghost v = self@;
        self.audio.reclaim();
        let ghost audio = self@.audio;
        proof {
            reclaiming_keeps_settings(v.audio, audio);
        }
        self.apply_loads(sink);
        let ghost mid = self@;
        let ghost log = sink.log();
        let ghost first = since(old(sink).log(), log);
        proof {
            since_push(log, Event::TempoRejected);
        }
        // Checked before the pause below, or a move requested while frozen would never
        // come.
        if faded {
            if let Some(action) = self.pending {
                self.pending = None;
                let before: SessionModel = self.session;
                let ghost ready = self@;
                self.apply_deferred(action, sink);
                let ghost after = sink.log();
                let ghost landed = since(log, after);
                self.emit_changes(&before, sink);
                proof {
                    since_adds(log, after, sink.log());
                    assert(performs(ready, action, self@, landed));
                    assert(ready == (EngineView { pending: None, ..mid }));
                }
            }
        }
        let ghost settled = sink.log();
        let ghost second = since(log, settled);
        assert(lands(mid, faded, self@, second));
        proof {
            since_adds(old(sink).log(), log, settled);
        }
        // Input is dropped rather than buffered while frozen: it belongs to a moment the
        // transport is not at.
        if self.paused {
            proof {
                assert(since(old(sink).log(), settled) =~= first + second + Seq::<Event>::empty());
                assert(reclaims(v.audio, audio));
                assert(applies_loads(EngineView { audio, ..v }, mid, first));
            }
            return false;
        }
        if input_frames < frames {
            let event = Event::Xrun { frames: (frames - input_frames) as u64 };
            proof {
                since_push(settled, event);
                since_adds(old(sink).log(), settled, settled.push(event));
            }
            sink.event(event);
        }
        proof {
            let tail = if input_frames < frames {
                seq![Event::Xrun { frames: (frames - input_frames) as u64 }]
            } else {
                Seq::<Event>::empty()
            };
            assert(since(old(sink).log(), sink.log()) =~= first + second + tail);
            assert(reclaims(v.audio, audio));
            assert(applies_loads(EngineView { audio, ..v }, mid, first));
        }
        true
    }
}

/// A count held to 32 bits.
fn as_u32(count: usize) -> (r: u32)
    ensures
        r == count32(count as int),
{
    if count <= u32::MAX as usize {
        count as u32
    } else {
        u32::MAX
    }
}

/// Carrying out instructions in order. One that would count past what can be counted is
/// dropped.
pub open spec fn obeys<S>(
    v: EngineView<S>,
    commands: Seq<Command>,
    w: EngineView<S>,
    events: Seq<Event>,
) -> bool {
    chained(obey_step(commands), v, commands.len() as int, w, events)
}

/// Carrying out one instruction of a list.
pub open spec fn obey_step<S>(commands: Seq<Command>) -> Step<EngineView<S>> {
    |v: EngineView<S>, index: int, w: EngineView<S>, events: Seq<Event>|
        if can_handle(v, commands[index]) {
            handled(v, commands[index], w, events)
        } else {
            w == v && events == Seq::<Event>::empty()
        }
}

/// Instructions the control thread can queue before the audio thread drains them.
pub const COMMAND_SLOTS: usize = 256;

impl<S: Copy> Engine<S> {
    /// Whether the position a change of musical time moves the transport to can be counted.
    fn can_move_to(&self, tempo: Tempo, signature: TimeSignature) -> (r: bool)
        requires
            self.wf(),
        ensures
            r == can_retime(self@, tempo, signature),
    {
        match BarGrid::new(self.sample_rate, tempo, signature) {
            Err(_) => {
                proof {
                    assert forall|grid: BarGrid| #[trigger]
                        measures(grid, self@.sample_rate, tempo, signature) implies self@.grid.rebased(
                        self@.position.0 as int,
                        grid,
                    ) <= u64::MAX by {}
                }
                true
            },
            Ok(found) => {
                proof {
                    assert forall|grid: BarGrid| #[trigger]
                        measures(grid, self@.sample_rate, tempo, signature) implies grid
                        == found by {
                        same_time_same_grid(grid, found);
                    }
                    assert(measures(found, self@.sample_rate, tempo, signature));
                }
                self.grid.can_rebase_onto(self.position, found)
            },
        }
    }

    /// Whether everything an instruction schedules can be counted. It always can until the
    /// transport has run for longer than anything lasts.
    pub fn accepts(&self, command: &Command) -> (r: bool)
        requires
            self.wf(),
        ensures
            r == can_handle(self@, *command),
    {
        match command {
            Command::Press(addr) => {
                let bar: u64 = self.grid.frames_per_bar().0;
                let room: bool = match self.session.state(*addr) {
                    SlotState::Recording { started_at, ends_at: None } => started_at.0 <= u64::MAX
                        - bar,
                    _ => true,
                };
                self.session.is_busy_elsewhere(*addr) || room && self.grid.has_next_boundary(
                    self.position,
                )
            },
            Command::SetTempo(tempo) => self.is_locked() || self.can_move_to(
                *tempo,
                self.time_signature,
            ),
            Command::SetTimeSignature(signature) => self.is_locked() || self.can_move_to(
                self.grid.tempo(),
                *signature,
            ),
            _ => true,
        }
    }

    /// Applies a control instruction, unless it would count past what can be counted. Returns
    /// whether it did.
    pub fn obey<E: EventSink>(&mut self, command: Command, sink: &mut E) -> (r: bool)
        requires
            old(self).wf(),
        ensures
            final(self).wf(),
            old(self).parks(final(self)),
            grown(old(sink).log(), final(sink).log()),
            r == can_handle(old(self)@, command),
            r ==> handled(
                old(self)@,
                command,
                final(self)@,
                since(old(sink).log(), final(sink).log()),
            ),
            !r ==> final(self)@ == old(self)@ && final(sink).log() == old(sink).log(),
    {
        if self.accepts(&command) {
            self.handle(command, sink);
            true
        } else {
            proof {
                since_push(sink.log(), Event::TempoRejected);
            }
            false
        }
    }

    /// Applies everything the control thread has queued, in order: until the lane is empty, or as
    /// much of it as it holds.
    pub fn drain_commands<E: EventSink>(&mut self, commands: &mut Inbox<Command>, sink: &mut E)
        requires
            old(self).wf(),
        ensures
            final(self).wf(),
            old(self).parks(final(self)),
            grown(old(sink).log(), final(sink).log()),
            old(commands)@.is_prefix_of(final(commands)@),
            final(commands)@.len() - old(commands)@.len() <= COMMAND_SLOTS,
            final(commands).empty() == (if final(commands)@.len() - old(commands)@.len()
                < COMMAND_SLOTS {
                old(commands).empty() + 1
            } else {
                old(commands).empty()
            }),
            final(commands).limit() == old(commands).limit(),
            obeys(
                old(self)@,
                final(commands)@.skip(old(commands)@.len() as int),
                final(self)@,
                since(old(sink).log(), final(sink).log()),
            ),
    {
        let ghost base = commands@.len() as int;
        // The lane holds a bounded number, so a block takes at most that many.
        let mut left: usize = COMMAND_SLOTS;
        proof {
            since_push(sink.log(), Event::TempoRejected);
            assert(commands@.skip(base) =~= Seq::empty());
            chain_starts(obey_step::<S>(commands@.skip(base)), self@);
        }
        while left > 0
            invariant
                self.wf(),
                old(self).parks(self),
                base == old(commands)@.len(),
                commands@.len() - base + left == COMMAND_SLOTS,
                commands.empty() == old(commands).empty(),
                commands.limit() == old(commands).limit(),
                grown(old(sink).log(), sink.log()),
                old(commands)@.is_prefix_of(commands@),
                obeys(
                    old(self)@,
                    commands@.skip(base),
                    self@,
                    since(old(sink).log(), sink.log()),
                ),
            decreases left,
        {
            let ghost mid = self@;
            let ghost log = sink.log();
            let ghost before = commands@.skip(base);
            let command: Command = match commands.take() {
                Some(command) => command,
                None => {
                    return ;
                },
            };
            self.obey(command, sink);
            proof {
                let list = commands@.skip(base);
                assert(list =~= before.push(command));
                let count = before.len() as int;
                since_adds(old(sink).log(), log, sink.log());
                since_push(log, Event::TempoRejected);
                obeying_looks_ahead_no_further(
                    before,
                    command,
                    old(self)@,
                    count,
                    mid,
                    since(old(sink).log(), log),
                );
                assert(obey_step::<S>(list)(mid, count, self@, since(log, sink.log())));
                chain_extends(
                    obey_step::<S>(list),
                    old(self)@,
                    count,
                    mid,
                    since(old(sink).log(), log),
                    self@,
                    since(log, sink.log()),
                );
            }
            left -= 1;
        }
    }
}

/// What the first instructions of a list do does not depend on the one after them.
proof fn obeying_looks_ahead_no_further<S>(
    before: Seq<Command>,
    next: Command,
    from: EngineView<S>,
    count: int,
    to: EngineView<S>,
    events: Seq<Event>,
)
    requires
        0 <= count <= before.len(),
        chained(obey_step::<S>(before), from, count, to, events),
    ensures
        chained(obey_step::<S>(before.push(next)), from, count, to, events),
    decreases count,
{
    let short = obey_step::<S>(before);
    let long = obey_step::<S>(before.push(next));
    if count > 0 {
        let (mid, first, here) = choose|mid: EngineView<S>, first: Seq<Event>, here: Seq<Event>|
            #[trigger] linked(mid, first, here) && events == first + here && chained(
                short,
                from,
                count - 1,
                mid,
                first,
            ) && short(mid, count - 1, to, here);
        obeying_looks_ahead_no_further(before, next, from, count - 1, mid, first);
        assert(before.push(next)[count - 1] == before[count - 1]);
        assert(long(mid, count - 1, to, here));
        assert(linked(mid, first, here));
    }
}

} // verus!
