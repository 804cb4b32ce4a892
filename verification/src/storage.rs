//! Storage is neither made nor lost, whatever becomes of the clips in it.

use vstd::prelude::*;

use crate::audio::{
    absorbable, applied, captures, emptied, lets_go, nowhere, retires, sealed, wrote, AudioView,
};
use crate::clip::{
    basis_len, blanks, constantly, filled, filling_reads_back, fills, held, picked, stuck,
    touched_end, BufferView, ClipView, PoolView,
};
use crate::event::Event;
use crate::ids::{places_are_addresses, SlotAddr};
use crate::slot::Effect;

verus! {

/// Segments a clip holds.
pub open spec fn segments_in<S>(clip: ClipView<S>) -> int {
    held(clip.buffer.chunks, clip.buffer.chunks.len() as int).len() as int
}

/// Segments the clips of a list hold.
pub open spec fn segments_among<S>(clips: Seq<ClipView<S>>) -> int
    decreases clips.len(),
{
    if clips.len() == 0 {
        0
    } else {
        segments_among(clips.drop_last()) + segments_in(clips.last())
    }
}

/// Segments the clips of the pads before a place hold.
pub open spec fn segments_on<S>(pads: Seq<Option<ClipView<S>>>, to: int) -> int
    decreases to,
{
    if to <= 0 {
        0
    } else {
        segments_on(pads, to - 1) + (match pads[to - 1] {
            Some(clip) => segments_in(clip),
            None => 0,
        })
    }
}

/// All the storage there is: free, on the pads, waiting in a clip, or given up.
pub open spec fn all_segments<S>(v: AudioView<S>) -> int {
    v.pool.free.len() + segments_on(v.clips, 64) + segments_among(v.shells) + segments_among(
        v.retired,
    )
}

/// Another clip of a list adds what it holds.
proof fn among_push<S>(clips: Seq<ClipView<S>>, clip: ClipView<S>)
    ensures
        segments_among(clips.push(clip)) == segments_among(clips) + segments_in(clip),
{
    assert(clips.push(clip).drop_last() =~= clips);
}

/// A pad given another clip changes what is held by the difference.
proof fn on_update<S>(
    pads: Seq<Option<ClipView<S>>>,
    place: int,
    clip: Option<ClipView<S>>,
    to: int,
)
    requires
        0 <= place < pads.len(),
        0 <= to <= pads.len(),
    ensures
        segments_on(pads.update(place, clip), to) == segments_on(pads, to) + (if place < to {
            (match clip {
                Some(clip) => segments_in(clip),
                None => 0,
            }) - (match pads[place] {
                Some(clip) => segments_in(clip),
                None => 0,
            })
        } else {
            0
        }),
    decreases to,
{
    if to > 0 {
        on_update(pads, place, clip, to - 1);
    }
}

/// Where no segment is held there are none.
proof fn none_in<S>(chunks: Seq<Option<Seq<S>>>, to: int)
    requires
        0 <= to <= chunks.len(),
        forall|i: int| 0 <= i < chunks.len() ==> (#[trigger] chunks[i]) is None,
    ensures
        held(chunks, to).len() == 0,
    decreases to,
{
    if to > 0 {
        none_in(chunks, to - 1);
    }
}

/// Giving a clip up keeps what it held.
proof fn giving_up_keeps<S>(v: AudioView<S>, clip: ClipView<S>, alone: bool, w: AudioView<S>)
    requires
        retires(v, clip, alone, w),
    ensures
        all_segments(w) == all_segments(v) + segments_in(clip),
{
    if alone && absorbable(v, clip) {
        among_push(v.shells, emptied(clip));
        none_in(emptied(clip).buffer.chunks, emptied(clip).buffer.chunks.len() as int);
    } else {
        among_push(v.retired, clip);
    }
}

/// Emptying a pad keeps what it held.
proof fn letting_go_keeps<S>(v: AudioView<S>, place: int, alone: bool, w: AudioView<S>)
    requires
        v.clips.len() == 64,
        0 <= place < 64,
        lets_go(v, place, alone, w),
    ensures
        all_segments(w) == all_segments(v),
{
    on_update(v.clips, place, None, 64);
    let cut = AudioView { clips: v.clips.update(place, None), ..v };
    match v.clips[place] {
        Some(clip) => giving_up_keeps(cut, clip, alone, w),
        None => {},
    }
}

/// No work on a pad makes storage or loses any: what a pad lets go is free again, waits in a
/// clip, or is on its way to the recycler.
pub proof fn work_keeps_all_storage<S>(
    v: AudioView<S>,
    addr: SlotAddr,
    effect: Effect,
    alone: bool,
    w: AudioView<S>,
    events: Seq<Event>,
)
    requires
        v.wf(),
        addr.wf(),
        applied(v, addr, effect, alone, w, events),
        effect is StartCapture ==> v.clips[addr.place()] is None,
    ensures
        all_segments(w) == all_segments(v),
{
    let place = addr.place();
    places_are_addresses(addr, 0);
    match effect {
        Effect::StartCapture { at: _ } => {
            if v.shells.len() > 0 {
                on_update(v.clips, place, Some(v.shells.last()), 64);
                assert(segments_among(v.shells) == segments_among(v.shells.drop_last())
                    + segments_in(v.shells.last()));
            }
        },
        Effect::FinishCapture { clip: _, started_at, at } => {
            if v.clips[place] is Some {
                on_update(
                    v.clips,
                    place,
                    Some(
                        sealed(
                            v.clips[place]->Some_0,
                            started_at.0 as int,
                            at.0 as int,
                            v.capture_offset.0 as int,
                        ),
                    ),
                    64,
                );
            }
        },
        Effect::CancelCapture => {
            letting_go_keeps(
                AudioView { recordings: v.recordings.update(place, None), ..v },
                place,
                alone,
                w,
            );
        },
        Effect::ReleaseClip { clip: _ } => {
            letting_go_keeps(v, place, alone, w);
        },
        _ => {},
    }
}

/// What is filled holds a segment more for each one that was drawn.
proof fn filling_holds<S>(
    buffer: BufferView<S>,
    free: Seq<Seq<S>>,
    frame: int,
    run: int,
    value: spec_fn(int, int) -> S,
    to: int,
)
    requires
        0 <= frame,
        0 <= to <= buffer.chunks.len(),
    ensures
        held(filled(buffer, free, frame, run, value), to).len() == held(buffer.chunks, to).len()
            + blanks(
            buffer.chunks,
            frame / 65_536,
            if to < touched_end(frame, run) {
                to
            } else {
                touched_end(frame, run)
            },
        ),
    decreases to,
{
    if to > 0 {
        filling_holds(buffer, free, frame, run, value, to - 1);
    }
}

/// Filling a buffer draws from the pool exactly the segments that the buffer gains.
proof fn filling_keeps<S>(
    buffer: (BufferView<S>, BufferView<S>),
    pool: (PoolView<S>, PoolView<S>),
    frame: int,
    total: int,
    run: int,
    value: spec_fn(int, int) -> S,
)
    requires
        0 <= frame,
        0 <= pool.0.reserved,
        fills(buffer, pool, frame, total, run, value),
    ensures
        pool.1.free.len() + held(buffer.1.chunks, buffer.1.chunks.len() as int).len()
            == pool.0.free.len() + held(buffer.0.chunks, buffer.0.chunks.len() as int).len(),
        pool.1.reserved == pool.0.reserved,
{
    filling_holds(
        buffer.0,
        pool.0.free,
        frame,
        run,
        value,
        buffer.0.chunks.len() as int,
    );
    let count = blanks(buffer.0.chunks, frame / 65_536, touched_end(frame, run));
    counts(buffer.0.chunks, frame / 65_536, touched_end(frame, run));
    if run == 0 {
        assert(touched_end(frame, run) == frame / 65_536);
        counts(buffer.0.chunks, frame / 65_536, buffer.0.chunks.len() as int);
    }
}

/// There are no fewer than no segments missing, and none before the first.
proof fn counts<S>(chunks: Seq<Option<Seq<S>>>, from: int, to: int)
    ensures
        0 <= blanks(chunks, from, to),
        to <= from ==> blanks(chunks, from, to) == 0,
    decreases to - from,
{
    if to > from {
        counts(chunks, from, to - 1);
    }
}

/// Capturing draws from the pool exactly the segments that the take gains.
pub proof fn capturing_keeps_all_storage<S>(
    v: AudioView<S>,
    place: int,
    captured: Seq<S>,
    src_channels: int,
    run: int,
    alone: bool,
    w: AudioView<S>,
    backed: int,
)
    requires
        v.wf(),
        0 <= place < 64,
        captures(v, place, captured, src_channels, run, alone, w, backed),
    ensures
        all_segments(w) == all_segments(v),
{
    if w.clips != v.clips || w.pool != v.pool {
        let recording = v.recordings[place]->Some_0;
        let before = v.clips[place]->Some_0.buffer;
        let after = w.clips[place]->Some_0.buffer;
        let frame = recording.frames as int;
        let picks = recording.input.picked();
        let (middle, rest, written) = choose|
            middle: BufferView<S>,
            rest: PoolView<S>,
            written: int,
        |
            #[trigger] wrote(
                (before, middle),
                (v.pool, rest),
                frame,
                captured,
                src_channels,
                picks,
                written,
            ) && fills(
                (middle, after),
                (rest, w.pool),
                frame + written,
                run - written,
                backed - written,
                constantly(before.quiet),
            );
        filling_keeps(
            (before, middle),
            (v.pool, rest),
            frame,
            captured.len() as int / src_channels,
            written,
            picked(captured, src_channels, picks),
        );
        filling_keeps(
            (middle, after),
            (rest, w.pool),
            frame + written,
            run - written,
            backed - written,
            constantly(before.quiet),
        );
        on_update(v.clips, place, w.clips[place], 64);
    }
}

/// Whatever a run captured reads back from the take as it came in, with silence for what the
/// device did not deliver, and everything captured before is as it was.
pub proof fn a_take_reads_back<S>(
    v: AudioView<S>,
    place: int,
    captured: Seq<S>,
    src_channels: int,
    run: int,
    alone: bool,
    w: AudioView<S>,
    backed: int,
    at: int,
    channel: int,
)
    requires
        v.wf(),
        0 <= place < 64,
        0 < src_channels,
        v.recordings[place] is Some,
        v.clips[place] is Some,
        captures(v, place, captured, src_channels, run, alone, w, backed),
        0 <= at,
        0 <= channel < v.pool.channels,
    ensures
        w.clips[place] is Some,
        ({
            let recording = v.recordings[place]->Some_0;
            let from = recording.frames as int;
            let before = v.clips[place]->Some_0.buffer;
            let after = w.clips[place]->Some_0.buffer;
            &&& from <= at < from + backed ==> after.at(at, channel) == Some(
                if at - from < captured.len() as int / src_channels {
                    picked(captured, src_channels, recording.input.picked())(at - from, channel)
                } else {
                    before.quiet
                },
            )
            &&& at < from && before.at(at, channel) is Some ==> after.at(at, channel) == before.at(
                at,
                channel,
            )
        }),
{
    let recording = v.recordings[place]->Some_0;
    let before = v.clips[place]->Some_0.buffer;
    let frame = recording.frames as int;
    let picks = recording.input.picked();
    if alone && !nowhere(v, place, run) {
        let after = w.clips[place]->Some_0.buffer;
        let (middle, rest, written) = choose|
            middle: BufferView<S>,
            rest: PoolView<S>,
            written: int,
        |
            #[trigger] wrote(
                (before, middle),
                (v.pool, rest),
                frame,
                captured,
                src_channels,
                picks,
                written,
            ) && fills(
                (middle, after),
                (rest, w.pool),
                frame + written,
                run - written,
                backed - written,
                constantly(before.quiet),
            );
        let count = captured.len() as int / src_channels;
        let value = picked(captured, src_channels, picks);
        filling_reads_back(
            (before, middle),
            (v.pool, rest),
            frame,
            count,
            written,
            value,
            at,
            channel,
        );
        filling_keeps_shape((before, middle), (v.pool, rest), frame, count, written, value);
        filling_reads_back(
            (middle, after),
            (rest, w.pool),
            frame + written,
            run - written,
            backed - written,
            constantly(before.quiet),
            at,
            channel,
        );
        if written < count && backed > written {
            let index = (frame + written) / 65_536;
            let end = touched_end(frame + written, backed - written);
            assert(index < end <= middle.chunks.len());
            assert(stuck(before, v.pool, frame, written));
            assert(before.chunks[index] is None);
            assert(middle.chunks[index] is None);
            some_blank(middle.chunks, index, end, index);
            counts(before.chunks, frame / 65_536, touched_end(frame, written));
            assert(rest.spare() == 0);
        }
    }
}

/// A segment that is not held is counted as missing.
proof fn some_blank<S>(chunks: Seq<Option<Seq<S>>>, from: int, to: int, index: int)
    requires
        from <= index < to,
        chunks[index] is None,
    ensures
        blanks(chunks, from, to) >= 1,
    decreases to - from,
{
    if index == to - 1 {
        counts(chunks, from, to - 1);
    } else {
        some_blank(chunks, from, to - 1, index);
    }
}

/// Filling keeps every segment as long as it was.
proof fn filling_keeps_shape<S>(
    buffer: (BufferView<S>, BufferView<S>),
    pool: (PoolView<S>, PoolView<S>),
    frame: int,
    total: int,
    run: int,
    value: spec_fn(int, int) -> S,
)
    requires
        buffer.0.wf(),
        pool.0.wf(),
        buffer.0.channels == pool.0.channels,
        0 <= frame,
        0 <= pool.0.reserved,
        fills(buffer, pool, frame, total, run, value),
    ensures
        buffer.1.wf(),
        pool.1.wf(),
{
    let first = frame / 65_536;
    let end = touched_end(frame, run);
    counts(buffer.0.chunks, first, end);
    assert forall|i: int|
        0 <= i < buffer.1.chunks.len() && (#[trigger] buffer.1.chunks[i]) is Some implies
        buffer.1.chunks[i]->Some_0.len() == 65_536 * buffer.1.channels by {
        if first <= i < end {
            basis_len(buffer.0, pool.0, first, i, end);
        }
    }
}

/// Capturing keeps all storage as wide as it says, gives no more frames storage than there are,
/// and gives none any where frames can no longer be counted.
pub(crate) proof fn capturing_keeps_shape<S>(
    v: AudioView<S>,
    place: int,
    captured: Seq<S>,
    src_channels: int,
    run: int,
    alone: bool,
    w: AudioView<S>,
    backed: int,
)
    requires
        v.wf(),
        0 <= place < 64,
        0 < src_channels,
        0 <= run,
        captured.len() as int / src_channels <= run,
        captures(v, place, captured, src_channels, run, alone, w, backed),
    ensures
        w.wf(),
        w.pool.channels == v.pool.channels,
        0 <= backed <= run,
        backed > 0 ==> v.recordings[place]->Some_0.frames + run <= u64::MAX,
{
    if v.recordings[place] is Some && alone && !nowhere(v, place, run) {
        let recording = v.recordings[place]->Some_0;
        let before = v.clips[place]->Some_0.buffer;
        let after = w.clips[place]->Some_0.buffer;
        let frame = recording.frames as int;
        let picks = recording.input.picked();
        let (middle, rest, written) = choose|
            middle: BufferView<S>,
            rest: PoolView<S>,
            written: int,
        |
            #[trigger] wrote(
                (before, middle),
                (v.pool, rest),
                frame,
                captured,
                src_channels,
                picks,
                written,
            ) && fills(
                (middle, after),
                (rest, w.pool),
                frame + written,
                run - written,
                backed - written,
                constantly(before.quiet),
            );
        assert(v.clips[place]->Some_0.wf());
        filling_keeps_shape(
            (before, middle),
            (v.pool, rest),
            frame,
            captured.len() as int / src_channels,
            written,
            picked(captured, src_channels, picks),
        );
        filling_keeps_shape(
            (middle, after),
            (rest, w.pool),
            frame + written,
            run - written,
            backed - written,
            constantly(before.quiet),
        );
        assert forall|i: int|
            0 <= i < 64 && (#[trigger] w.clips[i]) is Some implies w.clips[i]->Some_0.wf() by {
            if i != place {
                assert(w.clips[i] == v.clips[i]);
            }
        }
        assert forall|i: int|
            0 <= i < 64 && (#[trigger] w.clips[i]) is Some && w.recordings[i] is Some implies
            w.clips[i]->Some_0.channels == w.pool.channels by {
            if i != place {
                assert(w.clips[i] == v.clips[i]);
                assert(v.recordings[i] is Some);
            } else {
                assert(v.clips[place] is Some && v.recordings[place] is Some);
            }
        }
    } else if v.recordings[place] is Some {
        assert forall|i: int|
            0 <= i < 64 && (#[trigger] w.clips[i]) is Some && w.recordings[i] is Some implies
            w.clips[i]->Some_0.channels == w.pool.channels by {
            assert(v.clips[i] is Some && v.recordings[i] is Some);
        }
    }
}

/// Capturing leaves what a take reads as silence alone.
pub(crate) proof fn capturing_keeps_quiet<S>(
    v: AudioView<S>,
    place: int,
    captured: Seq<S>,
    src_channels: int,
    run: int,
    alone: bool,
    w: AudioView<S>,
    backed: int,
)
    requires
        v.clips.len() == 64,
        0 <= place < 64,
        v.recordings[place] is Some,
        v.clips[place] is Some,
        captures(v, place, captured, src_channels, run, alone, w, backed),
    ensures
        w.clips[place] is Some,
        w.clips[place]->Some_0.buffer.quiet == v.clips[place]->Some_0.buffer.quiet,
        w.clips[place] == Some(
            ClipView { buffer: w.clips[place]->Some_0.buffer, ..v.clips[place]->Some_0 },
        ),
{
}

/// Capturing draws from the pool and leaves the rest of it alone.
pub(crate) proof fn capturing_keeps_pool<S>(
    v: AudioView<S>,
    place: int,
    captured: Seq<S>,
    src_channels: int,
    run: int,
    alone: bool,
    w: AudioView<S>,
    backed: int,
)
    requires
        captures(v, place, captured, src_channels, run, alone, w, backed),
    ensures
        w.pool == (PoolView { free: w.pool.free, ..v.pool }),
{
}

} // verus!
