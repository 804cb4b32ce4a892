//! Audio storage for recorded clips.
//!
//! Memory is allocated when the pools are built and recycled through them afterwards.
//! Nothing here allocates or frees once audio is running: buffers hand their segments
//! back to the pool they came from instead of dropping them.
//!
//! What a sample is, is left open: storage is generic over it, and is told which sample is
//! silence.

use vstd::arithmetic::div_mod::*;
use vstd::arithmetic::mul::*;
use vstd::prelude::*;

use crate::time::Frames;

verus! {

/// Frames in one segment. At 48 kHz this is about 1.4 s.
pub const SEGMENT_FRAMES: usize = 65_536;

/// [`SEGMENT_FRAMES`] as a frame count.
const SEGMENT_FRAMES_U64: u64 = 65_536;

/// Saturating `u64` to `usize`. Only reached with frame counts that already exceed
/// addressable memory.
pub(crate) fn as_usize(value: u64) -> (r: usize)
    ensures
        r == (if value <= usize::MAX {
            value as int
        } else {
            usize::MAX as int
        }),
{
    if value <= usize::MAX as u64 {
        value as usize
    } else {
        usize::MAX
    }
}

/// Segments so many frames of audio occupy, before they are held to what can be counted.
pub open spec fn segments_spanned(frames: int) -> int {
    (frames + 65_535) / 65_536
}

/// Segments so many frames of audio occupy, held to what can be counted.
pub open spec fn segments_needed(frames: int) -> int {
    if segments_spanned(frames) <= usize::MAX {
        segments_spanned(frames)
    } else {
        usize::MAX as int
    }
}

/// Segments `frames` of audio occupies, rounded up the way storage is allocated.
///
/// The one definition of that rounding, so recording, saving and loading agree.
pub fn segments_for(frames: Frames) -> (r: usize)
    ensures
        r == segments_needed(frames.0 as int),
{
    let whole: u64 = frames.0 / SEGMENT_FRAMES_U64;
    if frames.0 % SEGMENT_FRAMES_U64 == 0 {
        as_usize(whole)
    } else {
        as_usize(whole + 1)
    }
}

/// A fixed block of interleaved audio.
#[derive(Debug)]
pub struct Segment<S> {
    pub(crate) data: Vec<S>,
}

impl<S: Copy> Segment<S> {
    /// Allocates a silent segment. Call off the audio thread.
    pub fn new(channels: usize, quiet: S) -> (r: Self)
        requires
            65_536 * channels <= usize::MAX,
        ensures
            r@ == Seq::new((65_536 * channels) as nat, |i: int| quiet),
    {
        let total: usize = SEGMENT_FRAMES * channels;
        let mut data: Vec<S> = Vec::with_capacity(total);
        while data.len() < total
            invariant
                data@.len() <= total,
                data@ == Seq::new(data@.len(), |i: int| quiet),
            decreases total - data@.len(),
        {
            data.push(quiet);
            assert(data@ =~= Seq::new(data@.len(), |i: int| quiet));
        }
        Segment { data }
    }
}

impl<S: Copy> Segment<S> {
    /// Fills `run` frames from `offset` on, the first of them with frame `from` of the source.
    fn put(
        &mut self,
        offset: usize,
        run: usize,
        channels: usize,
        source: &Source<'_, S>,
        from: usize,
    )
        requires
            channels > 0,
            old(self)@.len() == 65_536 * channels,
            offset + run <= 65_536,
            from + run <= usize::MAX,
            source.reaches(from + run, channels as int),
        ensures
            final(self)@ == Seq::new(
                old(self)@.len(),
                |j: int|
                    if offset <= j / (channels as int) < offset + run {
                        source.value(channels as int)(
                            from + j / (channels as int) - offset,
                            j % (channels as int),
                        )
                    } else {
                        old(self)@[j]
                    },
            ),
    {
        let len: usize = self.data.len();
        proof {
            bounds(offset as int, run as int, channels as int);
        }
        let start: usize = offset * channels;
        let end: usize = (offset + run) * channels;
        let mut at: usize = start;
        let mut frame: usize = 0;
        let mut channel: usize = 0;
        while at < end
            invariant
                channels > 0,
                len == 65_536 * channels,
                self.data@.len() == len,
                old(self)@.len() == len,
                offset + run <= 65_536,
                from + run <= usize::MAX,
                source.reaches(from + run, channels as int),
                start == offset * channels,
                end == (offset + run) * channels,
                end <= len,
                start <= at <= end,
                frame <= run,
                channel < channels,
                at == (offset + frame) * channels + channel,
                forall|j: int|
                    #![trigger self.data@[j]]
                    0 <= j < len ==> self.data@[j] == (if start <= j < at {
                        source.value(channels as int)(
                            from + j / (channels as int) - offset,
                            j % (channels as int),
                        )
                    } else {
                        old(self)@[j]
                    }),
            decreases end - at,
        {
            proof {
                assert(frame < run) by (nonlinear_arith)
                    requires
                        at == (offset + frame) * channels + channel,
                        at < end,
                        end == (offset + run) * channels,
                        channel >= 0,
                        channels > 0,
                ;
                inside(offset + frame, offset + run, channel as int, channels as int);
            }
            let sample: S = source.get(from + frame, channel, channels, Ghost(from + run));
            self.data.set(at, sample);
            at += 1;
            channel += 1;
            if channel == channels {
                channel = 0;
                frame += 1;
                assert((offset + frame) * channels == (offset + frame - 1) * channels + channels)
                    by (nonlinear_arith);
            }
        }
        assert forall|j: int| 0 <= j < len implies self.data@[j] == (if offset <= j / (
        channels as int) < offset + run {
            source.value(channels as int)(
                from + j / (channels as int) - offset,
                j % (channels as int),
            )
        } else {
            old(self)@[j]
        }) by {
            frames_and_samples(j, offset as int, channels as int);
            frames_and_samples(j, offset + run, channels as int);
        }
        assert(self@ =~= Seq::new(
            old(self)@.len(),
            |j: int|
                if offset <= j / (channels as int) < offset + run {
                    source.value(channels as int)(
                        from + j / (channels as int) - offset,
                        j % (channels as int),
                    )
                } else {
                    old(self)@[j]
                },
        ));
    }
}

/// The samples of a stretch of frames in a segment are among its samples.
proof fn bounds(offset: int, run: int, channels: int)
    requires
        0 <= offset,
        0 <= run,
        offset + run <= 65_536,
        channels > 0,
    ensures
        0 <= offset * channels <= (offset + run) * channels <= 65_536 * channels,
        (offset + run) * channels == offset * channels + run * channels,
        offset * channels + 0 == (offset + 0) * channels,
{
    assert(0 <= offset * channels <= (offset + run) * channels <= 65_536 * channels && (offset
        + run) * channels == offset * channels + run * channels) by (nonlinear_arith)
        requires
            0 <= offset,
            0 <= run,
            offset + run <= 65_536,
            channels > 0,
    ;
}

/// A sample is at or past a frame exactly when its frame is.
proof fn frames_and_samples(j: int, frame: int, channels: int)
    requires
        0 <= j,
        channels > 0,
    ensures
        j / channels >= frame <==> j >= frame * channels,
{
    lemma_fundamental_div_mod(j, channels);
    lemma_mod_bound(j, channels);
    let q = j / channels;
    if q >= frame {
        assert(channels * q >= frame * channels) by (nonlinear_arith)
            requires
                q >= frame,
                channels > 0,
        ;
    } else {
        assert(channels * q + channels <= frame * channels) by (nonlinear_arith)
            requires
                q + 1 <= frame,
                channels > 0,
        ;
    }
}

impl<S> View for Segment<S> {
    type V = Seq<S>;

    /// The samples of the segment.
    open(crate) spec fn view(&self) -> Seq<S> {
        self.data@
    }
}

/// A pool of segments, drawn from and returned to without allocating.
///
/// Capacity can be held back for audio the pool did not allocate, so it counts against
/// the same ceiling.
#[derive(Debug)]
pub struct SegmentPool<S> {
    pub(crate) free: Vec<Segment<S>>,
    pub(crate) channels: usize,
    /// Segments allocated up front.
    pub(crate) capacity: usize,
    /// Segments accounted to storage held elsewhere, which are never handed out.
    pub(crate) reserved: usize,
}

/// What a pool holds, as mathematical values.
#[verifier::ext_equal]
pub struct PoolView<S> {
    /// The samples of each free segment. The last one is handed out next.
    pub free: Seq<Seq<S>>,
    /// Channels every segment was allocated for.
    pub channels: int,
    /// Segments allocated up front.
    pub capacity: int,
    /// Segments held back.
    pub reserved: int,
}

impl<S> View for SegmentPool<S> {
    type V = PoolView<S>;

    open(crate) spec fn view(&self) -> PoolView<S> {
        PoolView {
            free: self.free@.map_values(|segment: Segment<S>| segment@),
            channels: self.channels as int,
            capacity: self.capacity as int,
            reserved: self.reserved as int,
        }
    }
}

impl<S> PoolView<S> {
    /// Every segment was allocated for the pool's channels.
    pub open spec fn wf(self) -> bool {
        forall|i: int|
            0 <= i < self.free.len() ==> (#[trigger] self.free[i]).len() == 65_536 * self.channels
    }

    /// Segments that can be handed out.
    pub open spec fn spare(self) -> int {
        if self.free.len() > self.reserved {
            self.free.len() - self.reserved
        } else {
            0
        }
    }
}

impl<S: Copy> SegmentPool<S> {
    /// Allocates `count` segments up front.
    pub fn new(count: usize, channels: usize, quiet: S) -> (r: Self)
        requires
            65_536 * channels <= usize::MAX,
        ensures
            r@ == (PoolView {
                free: Seq::new(
                    count as nat,
                    |i: int| Seq::new((65_536 * channels) as nat, |j: int| quiet),
                ),
                channels: channels as int,
                capacity: count as int,
                reserved: 0,
            }),
            r@.wf(),
    {
        let mut free: Vec<Segment<S>> = Vec::with_capacity(count);
        while free.len() < count
            invariant
                65_536 * channels <= usize::MAX,
                free@.len() <= count,
                forall|i: int|
                    0 <= i < free@.len() ==> (#[trigger] free@[i])@ == Seq::new(
                        (65_536 * channels) as nat,
                        |j: int| quiet,
                    ),
            decreases count - free@.len(),
        {
            free.push(Segment::new(channels, quiet));
        }
        let r = SegmentPool { free, channels, capacity: count, reserved: 0 };
        assert(r@.free =~= Seq::new(
            count as nat,
            |i: int| Seq::new((65_536 * channels) as nat, |j: int| quiet),
        ));
        r
    }

    /// Segments currently available, which is what is free less what is reserved.
    pub fn available(&self) -> (r: usize)
        ensures
            r == self@.spare(),
    {
        self.free.len().saturating_sub(self.reserved)
    }

    /// Holds `count` segments back for audio stored outside the pool.
    ///
    /// Exactly undone by [`SegmentPool::release`] of the same count. The reservation may
    /// exceed what is free, which reads as nothing available until enough comes back.
    pub fn reserve(&mut self, count: usize)
        ensures
            final(self)@ == (PoolView {
                reserved: if old(self)@.reserved + count <= usize::MAX {
                    old(self)@.reserved + count
                } else {
                    usize::MAX as int
                },
                ..old(self)@
            }),
    {
        self.reserved = self.reserved.saturating_add(count);
    }

    /// Gives `count` reserved segments back.
    pub fn release(&mut self, count: usize)
        ensures
            final(self)@ == (PoolView {
                reserved: if old(self)@.reserved >= count {
                    old(self)@.reserved - count
                } else {
                    0
                },
                ..old(self)@
            }),
    {
        self.reserved = self.reserved.saturating_sub(count);
    }

    /// Segments held back for storage the pool did not allocate.
    pub fn reserved(&self) -> (r: usize)
        ensures
            r == self@.reserved,
    {
        self.reserved
    }

    /// Segments the pool was built with, which is the ceiling it holds everything to.
    pub fn capacity(&self) -> (r: usize)
        ensures
            r == self@.capacity,
    {
        self.capacity
    }

    /// Channel count every segment in this pool was allocated for.
    pub fn channels(&self) -> (r: usize)
        ensures
            r == self@.channels,
    {
        self.channels
    }

    fn take(&mut self) -> (r: Option<Segment<S>>)
        requires
            old(self)@.wf(),
        ensures
            final(self)@.wf(),
            r is None <==> old(self)@.spare() == 0,
            r is None ==> final(self)@ == old(self)@,
            r is Some ==> r->Some_0@ == old(self)@.free.last() && final(self)@ == (PoolView {
                free: old(self)@.free.drop_last(),
                ..old(self)@
            }) && r->Some_0@.len() == 65_536 * old(self)@.channels,
    {
        assert(forall|i: int|
            0 <= i < self.free@.len() ==> self@.free[i] == (#[trigger] self.free@[i])@);
        if self.free.len() <= self.reserved {
            return None;
        }
        let r = self.free.pop();
        assert(self@.free =~= old(self)@.free.drop_last());
        r
    }

    fn give(&mut self, segment: Segment<S>)
        requires
            old(self)@.wf(),
            segment@.len() == 65_536 * old(self)@.channels,
        ensures
            final(self)@.wf(),
            final(self)@ == (PoolView { free: old(self)@.free.push(segment@), ..old(self)@ }),
    {
        self.free.push(segment);
        assert(self@.free =~= old(self)@.free.push(segment@));
    }
}

/// Reserving and releasing the same number undo each other, whatever is free meanwhile, so
/// long as the count of what is reserved can be held.
pub proof fn release_undoes_reserve<S>(
    before: PoolView<S>,
    reserved: PoolView<S>,
    after: PoolView<S>,
    count: int,
)
    requires
        0 <= count,
        0 <= before.reserved,
        reserved == (PoolView { reserved: before.reserved + count, ..before }),
        after == (PoolView {
            reserved: if reserved.reserved >= count {
                reserved.reserved - count
            } else {
                0
            },
            ..reserved
        }),
    ensures
        after == before,
        reserved.spare() <= before.spare(),
{
}

/// What a stretch of storage is filled with, by frame and channel.
enum Source<'a, S> {
    /// Frames of the storage's own width, one after the other.
    Interleaved(&'a [S]),
    /// Frames of another width, with the channel each channel of the storage takes.
    Picked(&'a [S], usize, &'a [u8]),
    /// The same sample throughout.
    Constant(S),
}

/// The sample at a frame and channel of interleaved frames.
pub open spec fn interleaved<S>(src: Seq<S>, channels: int) -> spec_fn(int, int) -> S {
    |frame: int, channel: int| src[frame * channels + channel]
}

/// The source channel that a channel of the storage takes.
pub open spec fn pick(picks: Seq<u8>, src_channels: int, channel: int) -> int {
    let wanted = picks[channel % picks.len() as int] as int;
    if wanted < src_channels {
        wanted
    } else {
        src_channels - 1
    }
}

/// The sample at a frame and channel, taken from interleaved frames as the picks say.
pub open spec fn picked<S>(src: Seq<S>, src_channels: int, picks: Seq<u8>) -> spec_fn(
    int,
    int,
) -> S {
    |frame: int, channel: int| src[frame * src_channels + pick(picks, src_channels, channel)]
}

/// The same sample at every frame and channel.
pub open spec fn constantly<S>(sample: S) -> spec_fn(int, int) -> S {
    |frame: int, channel: int| sample
}

impl<'a, S: Copy> Source<'a, S> {
    /// The sample at each frame and channel.
    spec fn value(self, channels: int) -> spec_fn(int, int) -> S {
        match self {
            Source::Interleaved(src) => interleaved(src@, channels),
            Source::Picked(src, src_channels, picks) => picked(src@, src_channels as int, picks@),
            Source::Constant(sample) => constantly(sample),
        }
    }

    /// Whether there are so many frames to take.
    spec fn reaches(self, frames: int, channels: int) -> bool {
        match self {
            Source::Interleaved(src) => frames * channels <= src@.len(),
            Source::Picked(src, src_channels, picks) => frames * src_channels <= src@.len()
                && src_channels > 0 && picks@.len() > 0,
            Source::Constant(_) => true,
        }
    }

    fn get(&self, frame: usize, channel: usize, channels: usize, Ghost(frames): Ghost<int>) -> (r:
        S)
        requires
            frame < frames,
            channel < channels,
            self.reaches(frames, channels as int),
        ensures
            r == self.value(channels as int)(frame as int, channel as int),
    {
        match self {
            Source::Interleaved(src) => {
                let len: usize = src.len();
                proof {
                    inside(frame as int, frames, channel as int, channels as int);
                }
                src[frame * channels + channel]
            },
            Source::Picked(src, src_channels, picks) => {
                let wanted: usize = picks[channel % picks.len()] as usize;
                let from: usize = if wanted < *src_channels {
                    wanted
                } else {
                    *src_channels - 1
                };
                let len: usize = src.len();
                proof {
                    inside(frame as int, frames, from as int, *src_channels as int);
                }
                src[frame * *src_channels + from]
            },
            Source::Constant(sample) => *sample,
        }
    }
}

/// A channel of a frame among so many frames is among their samples.
proof fn inside(frame: int, frames: int, channel: int, channels: int)
    requires
        0 <= frame < frames,
        0 <= channel < channels,
    ensures
        0 <= frame * channels,
        frame * channels + channel < frames * channels,
        (frame * channels + channel) / channels == frame,
        (frame * channels + channel) % channels == channel,
{
    assert(frame * channels + channels <= frames * channels) by (nonlinear_arith)
        requires
            frame + 1 <= frames,
            channels > 0,
    ;
    assert(0 <= frame * channels) by (nonlinear_arith)
        requires
            0 <= frame,
            0 < channels,
    ;
    lemma_fundamental_div_mod_converse(frame * channels + channel, channels, frame, channel);
}

/// What a buffer holds, as mathematical values.
#[verifier::ext_equal]
pub struct BufferView<S> {
    /// The samples of each segment, where one is held.
    pub chunks: Seq<Option<Seq<S>>>,
    /// Channels of the audio.
    pub channels: int,
    /// The sample that is silence.
    pub quiet: S,
}

impl<S> BufferView<S> {
    /// Every segment held is of the buffer's width.
    pub open spec fn wf(self) -> bool {
        forall|i: int|
            0 <= i < self.chunks.len() && (#[trigger] self.chunks[i]) is Some
                ==> self.chunks[i]->Some_0.len() == 65_536 * self.channels
    }

    /// The sample at a frame and channel, where one is held.
    pub open spec fn at(self, frame: int, channel: int) -> Option<S> {
        let index = frame / 65_536;
        if 0 <= index < self.chunks.len() {
            match self.chunks[index] {
                Some(chunk) => Some(chunk[frame % 65_536 * self.channels + channel]),
                None => None,
            }
        } else {
            None
        }
    }

    /// The sample a read gives at a frame and channel: silence where none is held.
    pub open spec fn read(self, frame: int, channel: int) -> S {
        match self.at(frame, channel) {
            Some(sample) => sample,
            None => self.quiet,
        }
    }
}

/// How many of the segments from one up to another are not held.
pub open spec fn blanks<S>(chunks: Seq<Option<Seq<S>>>, from: int, to: int) -> int
    decreases to - from,
{
    if to <= from {
        0
    } else {
        blanks(chunks, from, to - 1) + (if chunks[to - 1] is None {
            1int
        } else {
            0
        })
    }
}

/// The segment after the last one that a stretch of frames reaches into.
pub open spec fn touched_end(frame: int, run: int) -> int {
    if run <= 0 {
        frame / 65_536
    } else {
        (frame + run - 1) / 65_536 + 1
    }
}

/// What a segment holds before it is filled: what it held, or what the segment drawn for it
/// last held. Segments are drawn from the end of the free ones, in the order they are reached.
pub open spec fn basis<S>(
    chunks: Seq<Option<Seq<S>>>,
    free: Seq<Seq<S>>,
    first: int,
    index: int,
) -> Seq<S> {
    match chunks[index] {
        Some(chunk) => chunk,
        None => free[free.len() - 1 - blanks(chunks, first, index)],
    }
}

/// The segments of a buffer after `run` frames from `frame` on were filled with a value for
/// each frame and channel.
pub open spec fn filled<S>(
    buffer: BufferView<S>,
    free: Seq<Seq<S>>,
    frame: int,
    run: int,
    value: spec_fn(int, int) -> S,
) -> Seq<Option<Seq<S>>> {
    let first = frame / 65_536;
    Seq::new(
        buffer.chunks.len(),
        |index: int|
            if first <= index < touched_end(frame, run) {
                let old = basis(buffer.chunks, free, first, index);
                Some(
                    Seq::new(
                        old.len(),
                        |j: int|
                            {
                                let at = index * 65_536 + j / buffer.channels;
                                if frame <= at < frame + run {
                                    value(at - frame, j % buffer.channels)
                                } else {
                                    old[j]
                                }
                            },
                    ),
                )
            } else {
                buffer.chunks[index]
            },
    )
}

/// Whether no more frames can be stored after `run` of them: the buffer ends there, or they end
/// with a segment, the next one would have to be drawn and none can be.
pub open spec fn stuck<S>(buffer: BufferView<S>, pool: PoolView<S>, frame: int, run: int) -> bool {
    let index = (frame + run) / 65_536;
    ||| index >= buffer.chunks.len()
    ||| touched_end(frame, run) <= index && buffer.chunks[index] is None && pool.free.len()
        - blanks(
        buffer.chunks,
        frame / 65_536,
        touched_end(frame, run),
    ) <= pool.reserved
}

/// The effect of filling as much of `total` frames from `frame` on as storage allows: `run` of
/// them are filled, segments are drawn from the pool for them, and it stops short only where
/// it is stuck.
pub open spec fn fills<S>(
    buffer: (BufferView<S>, BufferView<S>),
    pool: (PoolView<S>, PoolView<S>),
    frame: int,
    total: int,
    run: int,
    value: spec_fn(int, int) -> S,
) -> bool {
    let (before, after) = buffer;
    &&& 0 <= run <= total
    &&& after == (BufferView {
        chunks: filled(before, pool.0.free, frame, run, value),
        ..before
    })
    &&& pool.1 == (PoolView {
        free: pool.0.free.take(
            pool.0.free.len() - blanks(before.chunks, frame / 65_536, touched_end(frame, run)),
        ),
        ..pool.0
    })
    &&& blanks(before.chunks, frame / 65_536, touched_end(frame, run)) <= pool.0.spare()
    &&& run > 0 ==> touched_end(frame, run) <= before.chunks.len()
    &&& run < total ==> stuck(before, pool.0, frame, run)
}

/// The segments held from one up to another, in order.
pub open spec fn held<S>(chunks: Seq<Option<Seq<S>>>, to: int) -> Seq<Seq<S>>
    decreases to,
{
    if to <= 0 {
        Seq::empty()
    } else {
        match chunks[to - 1] {
            Some(chunk) => held(chunks, to - 1).push(chunk),
            None => held(chunks, to - 1),
        }
    }
}

/// Sparse audio storage addressed by frame.
///
/// The segment array is sized up front for the longest allowed recording, but segments
/// are only drawn from the pool as the write position reaches them, so a short take
/// costs only the pointer array.
#[derive(Debug)]
pub struct AudioBuffer<S> {
    pub(crate) segments: Vec<Option<Segment<S>>>,
    pub(crate) channels: usize,
    pub(crate) quiet: S,
}

/// The samples of a segment that may not be held.
pub open(crate) spec fn samples<S>(segment: Option<Segment<S>>) -> Option<Seq<S>> {
    match segment {
        Some(segment) => Some(segment@),
        None => None,
    }
}

impl<S> View for AudioBuffer<S> {
    type V = BufferView<S>;

    open(crate) spec fn view(&self) -> BufferView<S> {
        BufferView {
            chunks: self.segments@.map_values(|segment: Option<Segment<S>>| samples(segment)),
            channels: self.channels as int,
            quiet: self.quiet,
        }
    }
}

impl<S: Copy> AudioBuffer<S> {
    /// Allocates the segment array. Call off the audio thread.
    pub fn new(max_segments: usize, channels: usize, quiet: S) -> (r: Self)
        ensures
            r@ == (BufferView {
                chunks: Seq::new(max_segments as nat, |i: int| None),
                channels: channels as int,
                quiet,
            }),
            r@.wf(),
    {
        let mut segments: Vec<Option<Segment<S>>> = Vec::with_capacity(max_segments);
        while segments.len() < max_segments
            invariant
                segments@.len() <= max_segments,
                forall|i: int| 0 <= i < segments@.len() ==> (#[trigger] segments@[i]) is None,
            decreases max_segments - segments@.len(),
        {
            segments.push(None);
        }
        let r = AudioBuffer { segments, channels, quiet };
        assert(r@.chunks =~= Seq::new(max_segments as nat, |i: int| None));
        r
    }

    /// Frames this buffer can address if fully populated.
    pub fn capacity(&self) -> (r: u64)
        requires
            self@.chunks.len() * 65_536 <= u64::MAX,
        ensures
            r == self@.chunks.len() * 65_536,
    {
        self.segments.len() as u64 * SEGMENT_FRAMES_U64
    }

    /// Returns every segment to `pool`, leaving the buffer empty and reusable.
    pub fn drain_into(&mut self, pool: &mut SegmentPool<S>)
        requires
            old(self)@.wf(),
            old(pool)@.wf(),
            old(self)@.channels == old(pool)@.channels,
        ensures
            final(self)@.wf(),
            final(pool)@.wf(),
            final(self)@ == (BufferView {
                chunks: Seq::new(old(self)@.chunks.len(), |i: int| None),
                ..old(self)@
            }),
            final(pool)@ == (PoolView {
                free: old(pool)@.free + held(old(self)@.chunks, old(self)@.chunks.len() as int),
                ..old(pool)@
            }),
    {
        let mut index: usize = 0;
        let count: usize = self.segments.len();
        assert(pool@.free =~= old(pool)@.free + held(old(self)@.chunks, 0));
        while index < count
            invariant
                index <= count,
                count == self.segments@.len(),
                old(self)@.wf(),
                old(self)@.chunks.len() == count,
                pool@.wf(),
                self.channels == old(self).channels,
                self.quiet == old(self).quiet,
                pool@.channels == self@.channels,
                pool@ == (PoolView {
                    free: old(pool)@.free + held(old(self)@.chunks, index as int),
                    ..old(pool)@
                }),
                self@.chunks == Seq::new(
                    count as nat,
                    |i: int|
                        if i < index {
                            None
                        } else {
                            old(self)@.chunks[i]
                        },
                ),
            decreases count - index,
        {
            let ghost before = self.segments@;
            let ghost chunks = self@.chunks;
            assert(chunks[index as int] == samples(before[index as int]));
            let slot = self.segments[index].take();
            assert(self.segments@ == before.update(index as int, None));
            assert(self@.chunks =~= chunks.update(index as int, None));
            if let Some(segment) = slot {
                pool.give(segment);
            }
            index += 1;
            assert(pool@.free =~= old(pool)@.free + held(old(self)@.chunks, index as int));
            assert(self@.chunks =~= Seq::new(
                count as nat,
                |i: int|
                    if i < index {
                        None
                    } else {
                        old(self)@.chunks[i]
                    },
            ));
        }
        assert(self@.chunks =~= Seq::new(count as nat, |i: int| None));
    }
}

impl<S: Copy> AudioBuffer<S> {
    /// Fills frames from `frame` on, drawing segments from `pool` as needed, as far as storage
    /// allows.
    fn fill(
        &mut self,
        frame: u64,
        total: usize,
        source: &Source<'_, S>,
        pool: &mut SegmentPool<S>,
    ) -> (r: usize)
        requires
            old(self)@.wf(),
            old(pool)@.wf(),
            old(self)@.channels == old(pool)@.channels,
            old(self)@.channels > 0,
            frame + total <= u64::MAX,
            source.reaches(total as int, old(self)@.channels),
        ensures
            final(self)@.wf(),
            final(pool)@.wf(),
            fills(
                (old(self)@, final(self)@),
                (old(pool)@, final(pool)@),
                frame as int,
                total as int,
                r as int,
                source.value(old(self)@.channels),
            ),
    {
        let ghost value = source.value(self@.channels);
        let ghost first = frame as int / 65_536;
        let ghost chunks = self@.chunks;
        let ghost free = pool@.free;
        let mut done: usize = 0;
        proof {
            assert(self@.chunks =~= filled(old(self)@, free, frame as int, 0, value));
            assert(free.take(free.len() - blanks(chunks, first, first)) =~= free);
        }
        while done < total
            invariant
                done <= total,
                old(self)@.wf(),
                chunks == old(self)@.chunks,
                free == old(pool)@.free,
                first == frame as int / 65_536,
                self@.wf(),
                pool@.wf(),
                old(pool)@.wf(),
                value == source.value(self@.channels),
                self@.channels == pool@.channels,
                self@.channels == old(self)@.channels,
                self@.channels > 0,
                frame + total <= u64::MAX,
                source.reaches(total as int, self@.channels),
                done == 0 || done == total || (frame + done) % 65_536 == 0,
                0 <= blanks(chunks, first, touched_end(frame as int, done as int)) <= old(
                    pool,
                )@.spare(),
                done > 0 ==> touched_end(frame as int, done as int) <= chunks.len(),
                self@ == (BufferView {
                    chunks: filled(old(self)@, free, frame as int, done as int, value),
                    ..old(self)@
                }),
                pool@ == (PoolView {
                    free: free.take(
                        free.len() - blanks(
                            chunks,
                            first,
                            touched_end(frame as int, done as int),
                        ),
                    ),
                    ..old(pool)@
                }),
            ensures
                done < total ==> stuck(old(self)@, old(pool)@, frame as int, done as int),
            decreases total - done,
        {
            let at: u64 = frame + done as u64;
            let index: usize = as_usize(at / SEGMENT_FRAMES_U64);
            let offset: usize = as_usize(at % SEGMENT_FRAMES_U64);
            let ghost end = touched_end(frame as int, done as int);
            proof {
                assert(end == at as int / 65_536);
            }
            let count: usize = self.segments.len();
            proof {
                assert(self@.chunks.len() == count);
                assert(filled(old(self)@, free, frame as int, done as int, value).len()
                    == chunks.len());
            }
            if index >= count {
                break ;
            }
            let ghost before = self@.chunks;
            let ghost drawn = blanks(chunks, first, end);
            proof {
                assert(before[index as int] == samples(self.segments@[index as int]));
                assert(before[index as int] == chunks[index as int]);
                assert(blanks(chunks, first, end + 1) == drawn + (if chunks[index as int] is None {
                    1int
                } else {
                    0
                }));
            }
            let slot: Option<Segment<S>> = self.segments[index].take();
            assert(self@.chunks =~= before.update(index as int, None));
            let mut segment: Segment<S> = match slot {
                Some(segment) => segment,
                None => {
                    match pool.take() {
                        Some(segment) => segment,
                        None => {
                            assert(self@.chunks =~= before);
                            break ;
                        },
                    }
                },
            };
            let ghost old_samples = basis(chunks, free, first, index as int);
            assert(segment@ == old_samples);
            let left: usize = total - done;
            let room: usize = SEGMENT_FRAMES - offset;
            let run: usize = if left < room {
                left
            } else {
                room
            };
            proof {
                source_reaches_less(*source, total as int, done + run, self@.channels);
            }
            segment.put(offset, run, self.channels, source, done);
            let ghost after_samples = segment@;
            self.segments.set(index, Some(segment));
            let ghost was = done as int;
            done += run;
            proof {
                assert(self@.chunks =~= before.update(index as int, Some(after_samples)));
                assert(touched_end(frame as int, done as int) == index + 1);
                assert forall|i: int| 0 <= i < chunks.len() implies self@.chunks[i] == filled(
                    old(self)@,
                    free,
                    frame as int,
                    done as int,
                    value,
                )[i] by {
                    let goal = filled(old(self)@, free, frame as int, done as int, value)[i];
                    if i == index {
                        assert(after_samples =~= goal->Some_0);
                    } else if first <= i < end {
                        let prior = filled(old(self)@, free, frame as int, was, value)[i];
                        assert(prior->Some_0 =~= goal->Some_0) by {
                            assert forall|j: int|
                                0 <= j < basis(
                                    chunks,
                                    free,
                                    first,
                                    i,
                                ).len() implies prior->Some_0[j] == goal->Some_0[j] by {
                                basis_len(old(self)@, old(pool)@, first, i, end);
                                chunk_frame(j, self@.channels);
                            }
                        }
                    }
                }
                assert(self@.chunks =~= filled(
                    old(self)@,
                    free,
                    frame as int,
                    done as int,
                    value,
                ));
                assert(pool@.free =~= free.take(
                    free.len() - blanks(chunks, first, touched_end(frame as int, done as int)),
                ));
            }
        }
        done
    }
}

/// A source reaches fewer frames where it reaches more.
proof fn source_reaches_less<S: Copy>(source: Source<'_, S>, more: int, fewer: int, channels: int)
    requires
        0 <= fewer <= more,
        channels > 0,
        source.reaches(more, channels),
    ensures
        source.reaches(fewer, channels),
{
    match source {
        Source::Interleaved(src) => {
            assert(fewer * channels <= more * channels) by (nonlinear_arith)
                requires
                    fewer <= more,
                    channels > 0,
            ;
        },
        Source::Picked(src, src_channels, picks) => {
            assert(fewer * src_channels <= more * src_channels) by (nonlinear_arith)
                requires
                    fewer <= more,
                    src_channels > 0,
            ;
        },
        Source::Constant(_) => {},
    }
}

/// The frame of a sample is inside its segment.
proof fn chunk_frame(j: int, channels: int)
    requires
        0 <= j < 65_536 * channels,
        channels > 0,
    ensures
        0 <= j / channels < 65_536,
{
    frames_and_samples(j, 0, channels);
    frames_and_samples(j, 65_536, channels);
}

/// A segment about to be filled is of the buffer's width.
pub(crate) proof fn basis_len<S>(
    buffer: BufferView<S>,
    pool: PoolView<S>,
    first: int,
    index: int,
    end: int,
)
    requires
        buffer.wf(),
        pool.wf(),
        buffer.channels == pool.channels,
        0 <= first <= index < end,
        end <= buffer.chunks.len(),
        blanks(buffer.chunks, first, end) <= pool.free.len(),
    ensures
        basis(buffer.chunks, pool.free, first, index).len() == 65_536 * buffer.channels,
{
    if buffer.chunks[index] is None {
        blanks_climb(buffer.chunks, first, index + 1, end);
        blanks_climb(buffer.chunks, first, first, index);
        assert(blanks(buffer.chunks, first, index + 1) == blanks(buffer.chunks, first, index) + 1);
    }
}

/// There are no fewer segments to draw further along.
proof fn blanks_climb<S>(chunks: Seq<Option<Seq<S>>>, first: int, a: int, b: int)
    requires
        a <= b,
    ensures
        blanks(chunks, first, a) <= blanks(chunks, first, b),
    decreases b - a,
{
    if a < b {
        blanks_climb(chunks, first, a, b - 1);
    }
}

impl<S: Copy> AudioBuffer<S> {
    /// Writes interleaved frames at `frame`, drawing segments from `pool` as needed.
    ///
    /// Returns how many frames were written, which is short of `src` only when the pool
    /// ran dry or the buffer's capacity was reached.
    pub fn write(&mut self, frame: u64, src: &[S], pool: &mut SegmentPool<S>) -> (r: usize)
        requires
            old(self)@.wf(),
            old(pool)@.wf(),
            old(self)@.channels == old(pool)@.channels,
            old(self)@.channels > 0,
            frame + src@.len() as int / old(self)@.channels <= u64::MAX,
        ensures
            final(self)@.wf(),
            final(pool)@.wf(),
            fills(
                (old(self)@, final(self)@),
                (old(pool)@, final(pool)@),
                frame as int,
                src@.len() as int / old(self)@.channels,
                r as int,
                interleaved(src@, old(self)@.channels),
            ),
    {
        let total: usize = src.len() / self.channels;
        proof {
            whole_frames(src@.len() as int, self@.channels);
        }
        self.fill(frame, total, &Source::Interleaved(src), pool)
    }

    /// Writes interleaved frames at `frame`, taking channels from `src` as `picks` says.
    ///
    /// `src` is `src_channels` wide. Channel `c` of the buffer takes source channel
    /// `picks[c % picks.len()]`, clamped to what `src` holds. An empty `picks` writes
    /// nothing.
    ///
    /// Returns how many frames were written.
    pub fn write_picked(
        &mut self,
        frame: u64,
        src: &[S],
        src_channels: usize,
        picks: &[u8],
        pool: &mut SegmentPool<S>,
    ) -> (r: usize)
        requires
            old(self)@.wf(),
            old(pool)@.wf(),
            old(self)@.channels == old(pool)@.channels,
            old(self)@.channels > 0,
            src_channels > 0 ==> frame + src@.len() as int / src_channels as int <= u64::MAX,
        ensures
            final(self)@.wf(),
            final(pool)@.wf(),
            src_channels == 0 || picks@.len() == 0 ==> r == 0 && final(self)@ == old(self)@
                && final(pool)@ == old(pool)@,
            src_channels > 0 && picks@.len() > 0 ==> fills(
                (old(self)@, final(self)@),
                (old(pool)@, final(pool)@),
                frame as int,
                src@.len() as int / src_channels as int,
                r as int,
                picked(src@, src_channels as int, picks@),
            ),
    {
        if src_channels == 0 || picks.len() == 0 {
            return 0;
        }
        let total: usize = src.len() / src_channels;
        proof {
            whole_frames(src@.len() as int, src_channels as int);
        }
        self.fill(frame, total, &Source::Picked(src, src_channels, picks), pool)
    }

    /// Backs `run` frames at `frame` with silence, drawing segments as needed.
    ///
    /// For frames a recording covered but the device never delivered. Recycled segments
    /// still hold the last take's audio, so the range is overwritten.
    ///
    /// Returns how many frames are now backed, short of `run` only when the pool ran dry
    /// or the buffer's capacity was reached.
    pub fn silence(&mut self, frame: u64, run: usize, pool: &mut SegmentPool<S>) -> (r: usize)
        requires
            old(self)@.wf(),
            old(pool)@.wf(),
            old(self)@.channels == old(pool)@.channels,
            old(self)@.channels > 0,
            frame + run <= u64::MAX,
        ensures
            final(self)@.wf(),
            final(pool)@.wf(),
            fills(
                (old(self)@, final(self)@),
                (old(pool)@, final(pool)@),
                frame as int,
                run as int,
                r as int,
                constantly(old(self)@.quiet),
            ),
    {
        let quiet: S = self.quiet;
        self.fill(frame, run, &Source::Constant(quiet), pool)
    }

    /// The sample at a frame and channel, if one is held there.
    fn sample(&self, frame: u64, channel: usize) -> (r: Option<S>)
        requires
            self@.wf(),
            channel < self@.channels,
        ensures
            r == self@.at(frame as int, channel as int),
    {
        let index: usize = as_usize(frame / SEGMENT_FRAMES_U64);
        let offset: usize = as_usize(frame % SEGMENT_FRAMES_U64);
        let count: usize = self.segments.len();
        assert(self@.chunks.len() == count);
        if index >= count {
            return None;
        }
        assert(self@.chunks[index as int] == samples(self.segments@[index as int]));
        match &self.segments[index] {
            Some(segment) => {
                let len: usize = segment.data.len();
                proof {
                    inside(offset as int, 65_536, channel as int, self@.channels);
                }
                Some(segment.data[offset * self.channels + channel])
            },
            None => None,
        }
    }
}

/// The samples of the whole frames in a list are in the list.
proof fn whole_frames(len: int, channels: int)
    requires
        0 <= len,
        0 < channels,
    ensures
        0 <= len / channels * channels <= len,
        0 <= len / channels <= len,
{
    lemma_fundamental_div_mod(len, channels);
    lemma_mod_bound(len, channels);
    lemma_div_pos_is_pos(len, channels);
    assert(channels * (len / channels) == len / channels * channels) by (nonlinear_arith);
    assert(0 <= len / channels * channels) by (nonlinear_arith)
        requires
            0 <= len / channels,
            0 < channels,
    ;
    assert(len / channels <= len / channels * channels) by (nonlinear_arith)
        requires
            0 <= len / channels,
            1 <= channels,
    ;
}

/// Whatever was filled reads back as it was put in, and every other sample that was held is
/// as it was.
pub proof fn filling_reads_back<S>(
    buffer: (BufferView<S>, BufferView<S>),
    pool: (PoolView<S>, PoolView<S>),
    frame: int,
    total: int,
    run: int,
    value: spec_fn(int, int) -> S,
    at: int,
    channel: int,
)
    requires
        buffer.0.wf(),
        pool.0.wf(),
        buffer.0.channels == pool.0.channels,
        0 <= frame,
        0 <= at,
        0 <= channel < buffer.0.channels,
        0 <= pool.0.reserved,
        fills(buffer, pool, frame, total, run, value),
    ensures
        frame <= at < frame + run ==> buffer.1.at(at, channel) == Some(value(at - frame, channel)),
        !(frame <= at < frame + run) && buffer.0.at(at, channel) is Some ==> buffer.1.at(at, channel)
            == buffer.0.at(at, channel),
{
    let (before, after) = buffer;
    let index = at / 65_536;
    let first = frame / 65_536;
    let end = touched_end(frame, run);
    let j = at % 65_536 * before.channels + channel;
    inside(at % 65_536, 65_536, channel, before.channels);
    if 0 <= index < before.chunks.len() && first <= index < end {
        basis_len(before, pool.0, first, index, end);
        assert(index * 65_536 + j / before.channels == at);
    }
}

/// What a clip holds, as mathematical values.
#[verifier::ext_equal]
pub struct ClipView<S> {
    /// The storage.
    pub buffer: BufferView<S>,
    /// Length of the loop.
    pub len: int,
    /// The transport position capture began at.
    pub recorded_at: int,
    /// Channels of the audio.
    pub channels: int,
    /// The round trip that was compensated for.
    pub capture_offset: int,
    /// Audio held past the loop.
    pub tail: int,
    /// Whether the storage belongs to someone else.
    pub borrowed: bool,
}

impl<S> ClipView<S> {
    /// The storage is of the clip's width.
    pub open spec fn wf(self) -> bool {
        self.buffer.wf() && self.buffer.channels == self.channels
    }

    /// The phase of the loop at a transport position, taken from an anchor.
    pub open spec fn phase(self, anchor: int, position: int) -> int {
        (position - anchor) % self.len
    }

    /// How many frames of the loop's opening come from the tail.
    pub open spec fn opening(self, pickup: int) -> int {
        let held = if pickup < self.tail {
            pickup
        } else {
            self.tail
        };
        if held < self.len {
            held
        } else {
            self.len
        }
    }

    /// The frame of storage that plays at a phase: of the tail while it stands in for the
    /// opening, else of the loop.
    pub open spec fn source(self, phase: int, opening: int) -> int {
        if phase < opening {
            self.len + phase
        } else {
            phase
        }
    }

    /// Frames from a phase on that are mixed in one go: no further than the segment, the point
    /// the tail stops standing in, or the end of the loop.
    pub open spec fn run_len(self, left: int, phase: int, opening: int) -> int {
        let in_segment = 65_536 - self.source(phase, opening) % 65_536;
        let in_part = if phase < opening {
            opening - phase
        } else {
            self.len - phase
        };
        let most = if in_segment < in_part {
            in_segment
        } else {
            in_part
        };
        if left < most {
            left
        } else {
            most
        }
    }

    /// The first frame of the run that frame `k` of a block is mixed in, where the run from
    /// `done` on starts at `phase`.
    pub open spec fn run_start(self, total: int, done: int, phase: int, opening: int, k: int) -> int
        decreases total - done,
    {
        let run = self.run_len(total - done, phase, opening);
        if run <= 0 || k < done + run {
            done
        } else {
            self.run_start(total, done + run, (phase + run) % self.len, opening, k)
        }
    }
}

/// The other channel of a stereo pair, or the channel itself where it has none.
pub open spec fn partner(channel: int, channels: int) -> int {
    if channel % 2 == 1 {
        channel - 1
    } else if channel + 1 < channels {
        channel + 1
    } else {
        channel
    }
}

/// What one sample of a block becomes when a frame of storage is mixed into it: the given
/// function is handed where the run began, how far into it the frame is, the channel, the
/// sample before, and the stored sample with the other one of its stereo pair. A frame that
/// is not held leaves the block alone.
pub open spec fn mixed<S, F: Fn(usize, usize, usize, S, S, S) -> S>(
    buffer: BufferView<S>,
    mix: F,
    source: int,
    start: int,
    k: int,
    channel: int,
    before: S,
    after: S,
) -> bool {
    match buffer.at(source, channel) {
        Some(own) => call_ensures(
            mix,
            (
                start as usize,
                (k - start) as usize,
                channel as usize,
                before,
                own,
                buffer.read(source, partner(channel, buffer.channels)),
            ),
            after,
        ),
        None => after == before,
    }
}

impl<S: Copy> AudioBuffer<S> {
    /// Mixes `run` frames starting at `frame` into a block from frame `at` of it on.
    ///
    /// Segments that were never written read as silence.
    fn add_into<F: Fn(usize, usize, usize, S, S, S) -> S>(
        &self,
        frame: u64,
        dst: &mut [S],
        at: usize,
        run: usize,
        mix: &F,
    )
        requires
            self@.wf(),
            self@.channels > 0,
            frame + run <= u64::MAX,
            (at + run) * self@.channels <= old(dst)@.len(),
            forall|start: usize, position: usize, channel: usize, before: S, own: S, other: S|
                call_requires(*mix, (start, position, channel, before, own, other)),
        ensures
            final(dst)@.len() == old(dst)@.len(),
            forall|k: int, c: int|
                #![trigger final(dst)@[k * self@.channels + c]]
                at <= k < at + run && 0 <= c < self@.channels ==> mixed(
                    self@,
                    *mix,
                    frame + k - at,
                    at as int,
                    k,
                    c,
                    old(dst)@[k * self@.channels + c],
                    final(dst)@[k * self@.channels + c],
                ),
            forall|j: int|
                0 <= j < old(dst)@.len() && !(at * self@.channels <= j < (at + run)
                    * self@.channels) ==> #[trigger] final(dst)@[j] == old(dst)@[j],
    {
        let channels: usize = self.channels;
        let len: usize = dst.len();
        let mut position: usize = 0;
        proof {
            assert((at + 0) * channels == at * channels);
        }
        while position < run
            invariant
                position <= run,
                channels > 0,
                channels == self@.channels,
                self@.wf(),
                dst@.len() == len,
                old(dst)@.len() == len,
                frame + run <= u64::MAX,
                (at + run) * channels <= len,
                forall|start: usize, position: usize, channel: usize, before: S, own: S, other: S|
                    call_requires(*mix, (start, position, channel, before, own, other)),
                forall|k: int, c: int|
                    #![trigger dst@[k * channels + c]]
                    at <= k < at + position && 0 <= c < channels ==> mixed(
                        self@,
                        *mix,
                        frame + k - at,
                        at as int,
                        k,
                        c,
                        old(dst)@[k * channels + c],
                        dst@[k * channels + c],
                    ),
                forall|j: int|
                    0 <= j < len && !(at * channels <= j < (at + position) * channels)
                        ==> #[trigger] dst@[j] == old(dst)@[j],
            decreases run - position,
        {
            let ghost before = dst@;
            let mut channel: usize = 0;
            proof {
                row_bounds(at as int, position as int, run as int, channels as int);
            }
            proof {
                assert(at + position <= (at + position) * channels) by (nonlinear_arith)
                    requires
                        0 <= at + position,
                        1 <= channels,
                ;
            }
            let base: usize = (at + position) * channels;
            while channel < channels
                invariant
                    channel <= channels,
                    channels == self@.channels,
                    self@.wf(),
                    position < run,
                    frame + run <= u64::MAX,
                    base == (at + position) * channels,
                    base + channels <= len,
                    dst@.len() == len,
                    before.len() == len,
                    forall|
                        start: usize,
                        position: usize,
                        channel: usize,
                        before: S,
                        own: S,
                        other: S,
                    |
                        call_requires(*mix, (start, position, channel, before, own, other)),
                    forall|c: int|
                        #![trigger dst@[base + c]]
                        0 <= c < channel ==> mixed(
                            self@,
                            *mix,
                            frame + position,
                            at as int,
                            at + position,
                            c,
                            before[base + c],
                            dst@[base + c],
                        ),
                    forall|j: int|
                        0 <= j < len && !(base <= j < base + channel) ==> #[trigger] dst@[j]
                            == before[j],
                decreases channels - channel,
            {
                let from: u64 = frame + position as u64;
                if let Some(own) = self.sample(from, channel) {
                    let side: usize = if channel % 2 == 1 {
                        channel - 1
                    } else if channel + 1 < channels {
                        channel + 1
                    } else {
                        channel
                    };
                    let other: S = match self.sample(from, side) {
                        Some(other) => other,
                        None => self.quiet,
                    };
                    let was: S = dst[base + channel];
                    let sum: S = mix(at, position, channel, was, own, other);
                    dst[base + channel] = sum;
                }
                channel += 1;
            }
            proof {
                assert forall|k: int, c: int|
                    #![trigger dst@[k * channels + c]]
                    at <= k < at + position + 1 && 0 <= c < channels implies mixed(
                    self@,
                    *mix,
                    frame + k - at,
                    at as int,
                    k,
                    c,
                    old(dst)@[k * channels + c],
                    dst@[k * channels + c],
                ) by {
                    row_bounds(at as int, k - at, run as int, channels as int);
                    if k < at + position {
                        rows_apart(k, at + position, c, channels as int);
                        assert(before[k * channels + c] == dst@[k * channels + c]);
                    } else {
                        assert(dst@[base + c] == dst@[k * channels + c]);
                        assert(before[base + c] == old(dst)@[base + c]);
                    }
                }
                assert((at + position + 1) * channels == base + channels) by (nonlinear_arith)
                    requires
                        base == (at + position) * channels,
                ;
                row_bounds(at as int, 0, run as int, channels as int);
                assert(at * channels <= base) by (nonlinear_arith)
                    requires
                        base == (at + position) * channels,
                        position >= 0,
                        channels >= 0,
                ;
            }
            position += 1;
        }
    }
}

/// A row of samples inside a block is inside its samples.
proof fn row_bounds(at: int, position: int, run: int, channels: int)
    requires
        0 <= at,
        0 <= position < run,
        0 < channels,
    ensures
        0 <= (at + position) * channels,
        (at + position) * channels + channels <= (at + run) * channels,
{
    assert(0 <= (at + position) * channels) by (nonlinear_arith)
        requires
            0 <= at + position,
            0 < channels,
    ;
    assert((at + position) * channels + channels <= (at + run) * channels) by (nonlinear_arith)
        requires
            position + 1 <= run,
            0 < channels,
    ;
}

/// Samples of an earlier row come before a later one.
proof fn rows_apart(k: int, later: int, c: int, channels: int)
    requires
        k < later,
        0 <= c < channels,
    ensures
        k * channels + c < later * channels,
{
    assert(k * channels + channels <= later * channels) by (nonlinear_arith)
        requires
            k + 1 <= later,
            0 < channels,
    ;
}

/// A finished recording.
#[derive(Debug)]
pub struct Clip<S> {
    pub(crate) buffer: AudioBuffer<S>,
    pub(crate) len: Frames,
    pub(crate) recorded_at: Frames,
    pub(crate) channels: usize,
    pub(crate) capture_offset: Frames,
    /// Audio captured past the loop, held at `[len, len + tail)`.
    pub(crate) tail: Frames,
    pub(crate) borrowed: bool,
}

impl<S> View for Clip<S> {
    type V = ClipView<S>;

    open(crate) spec fn view(&self) -> ClipView<S> {
        ClipView {
            buffer: self.buffer@,
            len: self.len.0 as int,
            recorded_at: self.recorded_at.0 as int,
            channels: self.channels as int,
            capture_offset: self.capture_offset.0 as int,
            tail: self.tail.0 as int,
            borrowed: self.borrowed,
        }
    }
}

impl<S> ClipView<S> {
    /// Segments the clip's audio costs: those of its loop and its tail together.
    pub open spec fn cost(self) -> int {
        if self.len + self.tail <= u64::MAX {
            segments_needed(self.len + self.tail)
        } else {
            segments_needed(u64::MAX as int)
        }
    }
}

impl<S: Copy> Clip<S> {
    /// Seals a buffer into a clip of `len` frames that was captured starting at
    /// `recorded_at`.
    pub fn new(buffer: AudioBuffer<S>, len: Frames, recorded_at: Frames, channels: usize) -> (r: Self)
        ensures
            r@ == (ClipView {
                buffer: buffer@,
                len: len.0 as int,
                recorded_at: recorded_at.0 as int,
                channels: channels as int,
                capture_offset: 0,
                tail: 0,
                borrowed: false,
            }),
    {
        Self {
            buffer,
            len,
            recorded_at,
            channels,
            capture_offset: Frames(0),
            tail: Frames(0),
            borrowed: false,
        }
    }

    /// An empty clip sized for `max_segments`, ready to be recorded into.
    pub fn empty(max_segments: usize, channels: usize, quiet: S) -> (r: Self)
        ensures
            r@ == (ClipView {
                buffer: BufferView {
                    chunks: Seq::new(max_segments as nat, |i: int| None),
                    channels: channels as int,
                    quiet,
                },
                len: 0,
                recorded_at: 0,
                channels: channels as int,
                capture_offset: 0,
                tail: 0,
                borrowed: false,
            }),
            r@.wf(),
    {
        Self::new(AudioBuffer::new(max_segments, channels, quiet), Frames(0), Frames(0), channels)
    }

    /// Length of the loop.
    pub fn len(&self) -> (r: Frames)
        ensures
            r.0 == self@.len,
    {
        self.len
    }

    /// Audio held past the loop, for a pickup to come from.
    pub fn tail(&self) -> (r: Frames)
        ensures
            r.0 == self@.tail,
    {
        self.tail
    }

    /// The transport position capture began at. Fixes the loop's phase against the grid.
    pub fn recorded_at(&self) -> (r: Frames)
        ensures
            r.0 == self@.recorded_at,
    {
        self.recorded_at
    }

    /// The round trip that was compensated for when this was sealed.
    ///
    /// Already folded into [`Clip::recorded_at`] and not read back when playing.
    pub fn capture_offset(&self) -> (r: Frames)
        ensures
            r.0 == self@.capture_offset,
    {
        self.capture_offset
    }

    /// Whether this clip's storage belongs to whoever handed it to the engine.
    ///
    /// The engine returns borrowed storage instead of absorbing it, so its pools keep
    /// their size.
    pub fn is_borrowed(&self) -> (r: bool)
        ensures
            r == self@.borrowed,
    {
        self.borrowed
    }

    /// Channels of the audio.
    pub fn channels(&self) -> (r: usize)
        ensures
            r == self@.channels,
    {
        self.channels
    }

    /// Segments this clip's audio costs, wherever its storage came from.
    ///
    /// Counts the tail as well as the loop.
    pub fn segments(&self) -> (r: usize)
        ensures
            r == self@.cost(),
    {
        segments_for(Frames(self.len.0.saturating_add(self.tail.0)))
    }

    /// Records how much audio was kept past the loop.
    pub fn set_tail(&mut self, tail: Frames)
        ensures
            final(self)@ == (ClipView { tail: tail.0 as int, ..old(self)@ }),
    {
        self.tail = tail;
    }

    /// Records the round trip compensated for.
    pub fn set_capture_offset(&mut self, offset: Frames)
        ensures
            final(self)@ == (ClipView { capture_offset: offset.0 as int, ..old(self)@ }),
    {
        self.capture_offset = offset;
    }

    /// Marks the storage as belonging to someone else.
    pub fn set_borrowed(&mut self, borrowed: bool)
        ensures
            final(self)@ == (ClipView { borrowed: borrowed, ..old(self)@ }),
    {
        self.borrowed = borrowed;
    }

    /// Sets the loop length.
    pub fn set_len(&mut self, len: Frames)
        ensures
            final(self)@ == (ClipView { len: len.0 as int, ..old(self)@ }),
    {
        self.len = len;
    }

    /// Sets the transport position the loop is aligned to.
    pub fn set_recorded_at(&mut self, at: Frames)
        ensures
            final(self)@ == (ClipView { recorded_at: at.0 as int, ..old(self)@ }),
    {
        self.recorded_at = at;
    }

    /// Clears the clip for reuse, keeping its storage.
    pub fn reset(&mut self)
        ensures
            final(self)@ == (ClipView {
                len: 0,
                recorded_at: 0,
                capture_offset: 0,
                tail: 0,
                ..old(self)@
            }),
    {
        self.len = Frames(0);
        self.recorded_at = Frames(0);
        self.capture_offset = Frames(0);
        self.tail = Frames(0);
    }

    /// Writes interleaved frames at `frame`, drawing segments from `pool` as needed.
    ///
    /// Returns how many frames were written.
    pub fn write(&mut self, frame: u64, src: &[S], pool: &mut SegmentPool<S>) -> (r: usize)
        requires
            old(self)@.wf(),
            old(pool)@.wf(),
            old(self)@.channels == old(pool)@.channels,
            old(self)@.channels > 0,
            frame + src@.len() as int / old(self)@.channels <= u64::MAX,
        ensures
            final(self)@.wf(),
            final(pool)@.wf(),
            final(self)@ == (ClipView { buffer: final(self)@.buffer, ..old(self)@ }),
            fills(
                (old(self)@.buffer, final(self)@.buffer),
                (old(pool)@, final(pool)@),
                frame as int,
                src@.len() as int / old(self)@.channels,
                r as int,
                interleaved(src@, old(self)@.channels),
            ),
    {
        self.buffer.write(frame, src, pool)
    }

    /// Writes interleaved frames at `frame`, taking channels from `src` as `picks` says.
    ///
    /// Returns how many frames were written.
    pub fn write_picked(
        &mut self,
        frame: u64,
        src: &[S],
        src_channels: usize,
        picks: &[u8],
        pool: &mut SegmentPool<S>,
    ) -> (r: usize)
        requires
            old(self)@.wf(),
            old(pool)@.wf(),
            old(self)@.channels == old(pool)@.channels,
            old(self)@.channels > 0,
            src_channels > 0 ==> frame + src@.len() as int / src_channels as int <= u64::MAX,
        ensures
            final(self)@.wf(),
            final(pool)@.wf(),
            final(self)@ == (ClipView { buffer: final(self)@.buffer, ..old(self)@ }),
            src_channels == 0 || picks@.len() == 0 ==> r == 0 && final(self)@ == old(self)@
                && final(pool)@ == old(pool)@,
            src_channels > 0 && picks@.len() > 0 ==> fills(
                (old(self)@.buffer, final(self)@.buffer),
                (old(pool)@, final(pool)@),
                frame as int,
                src@.len() as int / src_channels as int,
                r as int,
                picked(src@, src_channels as int, picks@),
            ),
    {
        self.buffer.write_picked(frame, src, src_channels, picks, pool)
    }

    /// Backs `run` frames at `frame` with silence, drawing segments as needed.
    ///
    /// Returns how many frames are now backed.
    pub fn silence(&mut self, frame: u64, run: usize, pool: &mut SegmentPool<S>) -> (r: usize)
        requires
            old(self)@.wf(),
            old(pool)@.wf(),
            old(self)@.channels == old(pool)@.channels,
            old(self)@.channels > 0,
            frame + run <= u64::MAX,
        ensures
            final(self)@.wf(),
            final(pool)@.wf(),
            final(self)@ == (ClipView { buffer: final(self)@.buffer, ..old(self)@ }),
            fills(
                (old(self)@.buffer, final(self)@.buffer),
                (old(pool)@, final(pool)@),
                frame as int,
                run as int,
                r as int,
                constantly(old(self)@.buffer.quiet),
            ),
    {
        self.buffer.silence(frame, run, pool)
    }

    /// Copies the clip's stored audio at `from` into `dst`, loop and tail alike.
    ///
    /// For writing a clip out as it was captured. Reads past what is stored give
    /// silence.
    pub fn copy_into(&self, from: Frames, dst: &mut [S])
        requires
            self@.wf(),
            self@.channels > 0,
            from.0 + old(dst)@.len() as int / self@.channels <= u64::MAX,
        ensures
            final(dst)@.len() == old(dst)@.len(),
            forall|j: int|
                0 <= j < old(dst)@.len() ==> #[trigger] final(dst)@[j] == (if j / self@.channels
                    < old(dst)@.len() as int / self@.channels {
                    self@.buffer.read(from.0 + j / self@.channels, j % self@.channels)
                } else {
                    old(dst)@[j]
                }),
    {
        let len: usize = dst.len();
        let channels: usize = self.channels;
        let total: usize = len / channels;
        let mut at: usize = 0;
        let mut frame: usize = 0;
        let mut channel: usize = 0;
        while frame < total
            invariant
                self@.wf(),
                channels == self@.channels,
                channels > 0,
                len == old(dst)@.len(),
                dst@.len() == len,
                total == len as int / channels as int,
                from.0 + total <= u64::MAX,
                frame <= total,
                channel < channels,
                frame == total ==> channel == 0,
                at == frame * channels + channel,
                at <= len,
                forall|j: int|
                    0 <= j < len ==> #[trigger] dst@[j] == (if j < at {
                        self@.buffer.read(from.0 + j / self@.channels, j % self@.channels)
                    } else {
                        old(dst)@[j]
                    }),
            decreases total - frame, channels - channel,
        {
            proof {
                inside(frame as int, total as int, channel as int, channels as int);
                whole_frames(len as int, channels as int);
            }
            let sample: S = match self.buffer.sample(from.0 + frame as u64, channel) {
                Some(sample) => sample,
                None => self.buffer.quiet,
            };
            dst[at] = sample;
            at += 1;
            channel += 1;
            if channel == channels {
                channel = 0;
                frame += 1;
                assert(frame * channels == (frame - 1) * channels + channels) by (nonlinear_arith);
            }
        }
        assert forall|j: int| 0 <= j < len implies #[trigger] dst@[j] == (if j / self@.channels
            < total {
            self@.buffer.read(from.0 + j / self@.channels, j % self@.channels)
        } else {
            old(dst)@[j]
        }) by {
            frames_and_samples(j, total as int, channels as int);
        }
    }

    /// Returns the clip's segments to `pool`, leaving it empty and reusable.
    pub fn release_segments(&mut self, pool: &mut SegmentPool<S>)
        requires
            old(self)@.wf(),
            old(pool)@.wf(),
            old(self)@.channels == old(pool)@.channels,
        ensures
            final(self)@.wf(),
            final(pool)@.wf(),
            final(self)@ == (ClipView {
                buffer: BufferView {
                    chunks: Seq::new(old(self)@.buffer.chunks.len(), |i: int| None),
                    ..old(self)@.buffer
                },
                ..old(self)@
            }),
            final(pool)@ == (PoolView {
                free: old(pool)@.free + held(
                    old(self)@.buffer.chunks,
                    old(self)@.buffer.chunks.len() as int,
                ),
                ..old(pool)@
            }),
    {
        self.buffer.drain_into(pool);
    }

    /// Adds the loop into `dst` with the given function, from the phase this clip has at
    /// `position`.
    ///
    /// `dst` is interleaved and its length must be a multiple of the channel count.
    pub fn mix_into<F: Fn(usize, usize, usize, S, S, S) -> S>(
        &self,
        position: Frames,
        dst: &mut [S],
        mix: &F,
    )
        requires
            self@.wf(),
            self@.channels > 0,
            self@.len <= 0x7fff_ffff_ffff_ffff,
            forall|start: usize, position: usize, channel: usize, before: S, own: S, other: S|
                call_requires(*mix, (start, position, channel, before, own, other)),
        ensures
            plays(
                self@,
                self@.recorded_at,
                position.0 as int,
                0,
                *mix,
                old(dst)@,
                final(dst)@,
            ),
    {
        self.mix_from(self.recorded_at, position, dst, mix);
    }

    /// Adds the loop into `dst` as though it were recorded at `anchor`.
    ///
    /// For a clip whose playback position is decided when it is launched rather than when
    /// it was recorded. Otherwise as [`Clip::mix_into`].
    pub fn mix_from<F: Fn(usize, usize, usize, S, S, S) -> S>(
        &self,
        anchor: Frames,
        position: Frames,
        dst: &mut [S],
        mix: &F,
    )
        requires
            self@.wf(),
            self@.channels > 0,
            self@.len <= 0x7fff_ffff_ffff_ffff,
            forall|start: usize, position: usize, channel: usize, before: S, own: S, other: S|
                call_requires(*mix, (start, position, channel, before, own, other)),
        ensures
            plays(
                self@,
                anchor.0 as int,
                position.0 as int,
                0,
                *mix,
                old(dst)@,
                final(dst)@,
            ),
    {
        self.mix_pickup(anchor, position, dst, Frames(0), mix);
    }

    /// Adds the loop into `dst`, opening its first `pickup` frames from the tail.
    ///
    /// Clamped to what the tail holds; the rest of the loop plays as recorded.
    pub fn mix_pickup<F: Fn(usize, usize, usize, S, S, S) -> S>(
        &self,
        anchor: Frames,
        position: Frames,
        dst: &mut [S],
        pickup: Frames,
        mix: &F,
    )
        requires
            self@.wf(),
            self@.channels > 0,
            self@.len <= 0x7fff_ffff_ffff_ffff,
            forall|start: usize, position: usize, channel: usize, before: S, own: S, other: S|
                call_requires(*mix, (start, position, channel, before, own, other)),
        ensures
            plays(
                self@,
                anchor.0 as int,
                position.0 as int,
                pickup.0 as int,
                *mix,
                old(dst)@,
                final(dst)@,
            ),
    {
        let len: u64 = self.len.0;
        if len == 0 {
            return ;
        }
        let mut opening: u64 = pickup.0;
        if self.tail.0 <= opening {
            opening = self.tail.0;
        }
        if len <= opening {
            opening = len;
        }
        let channels: usize = self.channels;
        let size: usize = dst.len();
        let total: usize = size / channels;
        // Modular rather than saturating: a clip loaded from a session can sit ahead of
        // the transport, and clamping to zero replays one fragment until it catches up.
        proof {
            phase_is_modular(position.0 as int, anchor.0 as int, len as int);
        }
        let mut phase: u64 = (position.0 % len + len - anchor.0 % len) % len;
        let ghost start = phase as int;
        let mut done: usize = 0;
        proof {
            whole_frames(size as int, channels as int);
            lemma_small_mod(start as nat, len as nat);
        }
        while done < total
            invariant
                self@.wf(),
                channels == self@.channels,
                channels > 0,
                len == self@.len,
                0 < len <= 0x7fff_ffff_ffff_ffff,
                opening == self@.opening(pickup.0 as int),
                opening <= len,
                phase < len,
                0 <= start < len,
                phase == (start + done) % (len as int),
                done <= total,
                size == old(dst)@.len(),
                dst@.len() == size,
                total == size as int / channels as int,
                total * channels <= size,
                forall|start: usize, position: usize, channel: usize, before: S, own: S, other: S|
                    call_requires(*mix, (start, position, channel, before, own, other)),
                forall|k: int|
                    done <= k < total ==> #[trigger] self@.run_start(
                        total as int,
                        0,
                        start,
                        opening as int,
                        k,
                    ) == self@.run_start(
                        total as int,
                        done as int,
                        phase as int,
                        opening as int,
                        k,
                    ),
                forall|k: int, c: int|
                    #![trigger dst@[k * channels + c]]
                    0 <= k < done && 0 <= c < channels ==> mixed(
                        self@.buffer,
                        *mix,
                        self@.source((start + k) % self@.len, opening as int),
                        self@.run_start(total as int, 0, start, opening as int, k),
                        k,
                        c,
                        old(dst)@[k * channels + c],
                        dst@[k * channels + c],
                    ),
                forall|j: int|
                    done * channels <= j < size ==> #[trigger] dst@[j] == old(dst)@[j],
            decreases total - done,
        {
            // Runs never straddle the point the tail stops standing in.
            let standing_in: bool = phase < opening;
            let source: u64 = if standing_in {
                len + phase
            } else {
                phase
            };
            let limit: u64 = if standing_in {
                opening
            } else {
                len
            };
            let mut run: usize = total - done;
            let in_segment: usize = SEGMENT_FRAMES - as_usize(source % SEGMENT_FRAMES_U64);
            if in_segment < run {
                run = in_segment;
            }
            let in_part: usize = as_usize(limit - phase);
            if in_part < run {
                run = in_part;
            }
            proof {
                assert(run == self@.run_len(total - done, phase as int, opening as int));
                assert((done + run) * channels <= total * channels) by (nonlinear_arith)
                    requires
                        done + run <= total,
                        channels > 0,
                ;
                assert(0 <= done * channels) by (nonlinear_arith)
                    requires
                        0 <= done,
                        0 < channels,
                ;
            }
            let ghost before = dst@;
            self.buffer.add_into(source, dst, done, run, mix);
            proof {
                assert forall|k: int, c: int|
                    #![trigger dst@[k * channels + c]]
                    0 <= k < done + run && 0 <= c < channels implies mixed(
                    self@.buffer,
                    *mix,
                    self@.source((start + k) % self@.len, opening as int),
                    self@.run_start(total as int, 0, start, opening as int, k),
                    k,
                    c,
                    old(dst)@[k * channels + c],
                    dst@[k * channels + c],
                ) by {
                    row_bounds(0, k, total as int, channels as int);
                    if k < done {
                        rows_apart(k, done as int, c, channels as int);
                        assert(before[k * channels + c] == dst@[k * channels + c]);
                    } else {
                        phase_within(start, done as int, k, phase as int, len as int);
                        rows_after(done as int, k, c, channels as int);
                        assert(before[k * channels + c] == old(dst)@[k * channels + c]);
                        assert(self@.run_start(
                            total as int,
                            done as int,
                            phase as int,
                            opening as int,
                            k,
                        ) == done);
                    }
                }
                assert forall|j: int| (done + run) * channels <= j < size implies #[trigger] dst@[j]
                    == old(dst)@[j] by {
                    assert(done * channels <= (done + run) * channels) by (nonlinear_arith)
                        requires
                            run >= 0,
                            channels > 0,
                    ;
                    assert(before[j] == old(dst)@[j]);
                }
                phase_moves(start, done as int, run as int, phase as int, len as int);
                assert forall|k: int| done + run <= k < total implies #[trigger] self@.run_start(
                    total as int,
                    0,
                    start,
                    opening as int,
                    k,
                ) == self@.run_start(
                    total as int,
                    done + run,
                    (phase + run) % (len as int),
                    opening as int,
                    k,
                ) by {}
            }
            done += run;
            phase += run as u64;
            if phase >= len {
                phase = 0;
            }
        }
        proof {
            assert(opening == self@.opening(pickup.0 as int));
        }
    }
}

/// What a block becomes when the loop is played into it at a transport position, as though it
/// were recorded at an anchor, with its first frames opened from the tail.
pub open spec fn plays<S, F: Fn(usize, usize, usize, S, S, S) -> S>(
    clip: ClipView<S>,
    anchor: int,
    position: int,
    pickup: int,
    mix: F,
    before: Seq<S>,
    after: Seq<S>,
) -> bool {
    let total = before.len() as int / clip.channels;
    let opening = clip.opening(pickup);
    let start = clip.phase(anchor, position);
    &&& after.len() == before.len()
    &&& clip.len == 0 ==> after == before
    &&& clip.len > 0 ==> forall|k: int, c: int|
        #![trigger after[k * clip.channels + c]]
        0 <= k < total && 0 <= c < clip.channels ==> mixed(
            clip.buffer,
            mix,
            clip.source((start + k) % clip.len, opening),
            clip.run_start(total, 0, start, opening, k),
            k,
            c,
            before[k * clip.channels + c],
            after[k * clip.channels + c],
        )
    &&& forall|j: int|
        total * clip.channels <= j < before.len() ==> #[trigger] after[j] == before[j]
}

/// The phase as it is computed, without going below zero.
proof fn phase_is_modular(position: int, anchor: int, len: int)
    requires
        0 < len,
        0 <= position,
        0 <= anchor,
    ensures
        (position % len + len - anchor % len) % len == (position - anchor) % len,
        0 <= position % len < len,
        0 <= anchor % len < len,
        0 <= (position - anchor) % len < len,
{
    lemma_mod_bound(position, len);
    lemma_mod_bound(anchor, len);
    lemma_mod_bound(position - anchor, len);
    lemma_sub_mod_noop(position, anchor, len);
    lemma_mod_add_multiples_vanish(position % len - anchor % len, len);
}

/// Inside a run the phase climbs with the frames.
proof fn phase_within(start: int, done: int, k: int, phase: int, len: int)
    requires
        0 < len,
        0 <= start,
        0 <= done <= k,
        phase == (start + done) % len,
        phase + k - done < len,
    ensures
        (start + k) % len == phase + k - done,
{
    lemma_mod_bound(start + done, len);
    lemma_fundamental_div_mod(start + done, len);
    let q = (start + done) / len;
    assert(start + k == len * q + (phase + k - done));
    assert(len * q == q * len) by (nonlinear_arith);
    lemma_fundamental_div_mod_converse(start + k, len, q, phase + k - done);
}

/// After a run the phase has moved on by it, and wraps at the end of the loop.
proof fn phase_moves(start: int, done: int, run: int, phase: int, len: int)
    requires
        0 < len,
        0 <= start,
        0 <= done,
        0 <= run,
        phase == (start + done) % len,
        phase + run <= len,
    ensures
        (start + done + run) % len == (phase + run) % len,
        phase + run < len ==> (phase + run) % len == phase + run,
        phase + run == len ==> (phase + run) % len == 0,
{
    lemma_mod_bound(start + done, len);
    lemma_add_mod_noop(start + done, run, len);
    lemma_add_mod_noop(phase, run, len);
    lemma_mod_twice(start + done, len);
    lemma_mod_self_0(len);
    if phase + run < len {
        lemma_small_mod((phase + run) as nat, len as nat);
    }
}

/// Samples of a later row come after an earlier one.
proof fn rows_after(earlier: int, k: int, c: int, channels: int)
    requires
        earlier <= k,
        0 <= c < channels,
    ensures
        earlier * channels <= k * channels + c,
{
    assert(earlier * channels <= k * channels) by (nonlinear_arith)
        requires
            earlier <= k,
            0 < channels,
    ;
}

/// A loop is in the same phase a whole number of loops apart, however far the anchor is
/// behind the transport or ahead of it.
pub proof fn phase_repeats<S>(clip: ClipView<S>, anchor: int, position: int, loops: int)
    requires
        clip.len > 0,
    ensures
        clip.phase(anchor, position + loops * clip.len) == clip.phase(anchor, position),
        clip.phase(anchor + loops * clip.len, position) == clip.phase(anchor, position),
        0 <= clip.phase(anchor, position) < clip.len,
        clip.phase(anchor, anchor) == 0,
{
    lemma_mod_bound(position - anchor, clip.len);
    assert(loops * clip.len == clip.len * loops) by (nonlinear_arith);
    lemma_mod_multiples_vanish(loops, position - anchor, clip.len);
    lemma_mod_multiples_vanish(-loops, position - anchor, clip.len);
    assert((-loops) * clip.len == -(loops * clip.len)) by (nonlinear_arith);
    assert(clip.len * (-loops) == -(loops * clip.len)) by (nonlinear_arith);
    lemma_small_mod(0, clip.len as nat);
}

/// Segments to draw are never less than none.
proof fn blanks_are_counted<S>(chunks: Seq<Option<Seq<S>>>, from: int, to: int)
    ensures
        0 <= blanks(chunks, from, to),
    decreases to - from,
{
    if to > from {
        blanks_are_counted(chunks, from, to - 1);
    }
}

/// Filling draws on what the pool can spare and on no more: what is reserved stays. It stops short
/// only where the buffer ends or the pool has nothing to spare.
pub proof fn filling_spares_what_is_reserved<S>(
    buffer: (BufferView<S>, BufferView<S>),
    pool: (PoolView<S>, PoolView<S>),
    frame: int,
    total: int,
    run: int,
    value: spec_fn(int, int) -> S,
)
    requires
        0 <= pool.0.reserved,
        fills(buffer, pool, frame, total, run, value),
    ensures
        0 <= run <= total,
        pool.1.reserved == pool.0.reserved,
        pool.1.capacity == pool.0.capacity,
        pool.1.channels == pool.0.channels,
        pool.1.free.len() <= pool.0.free.len(),
        pool.0.reserved <= pool.0.free.len() ==> pool.1.reserved <= pool.1.free.len(),
        buffer.1.chunks.len() == buffer.0.chunks.len(),
        run < total ==> pool.1.spare() == 0 || (frame + run) / 65_536 >= buffer.1.chunks.len(),
{
    blanks_are_counted(buffer.0.chunks, frame / 65_536, touched_end(frame, run));
}

} // verus!
