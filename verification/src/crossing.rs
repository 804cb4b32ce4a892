//! Where blocks end makes no difference, however many beats and takes there are between them.
//!
//! What an engine comes down to is everything it holds but for where the audio is stored: the
//! state of every pad, and of each clip the audio that was captured or can be heard. Two engines
//! that come down to the same play the same.

use vstd::arithmetic::div_mod::lemma_div_by_multiple;
use vstd::prelude::*;

use crate::audio::{
    applied, came_back, captures, plus, ran_on, verdict, worked, AudioView, Recording,
};
use crate::blocks::{
    delivered_fits, frames_in_a_row, holds_after, moved_on, one_pad_runs, pad_ran, ran, ran_to,
    same_clip,
};
use crate::chain::{chain_keeps, chained, linked};
use crate::clip::{picked, BufferView, ClipView, PoolView};
use crate::command::Command;
use crate::engine::target_gain;
use crate::event::Event;
use crate::grid::{lines_bracket, next_cut_is_next};
use crate::ids::{holds_place, none_held, or_bit, places_are_addresses, PadMask, SlotAddr};
use crate::load::LoadMessage;
use crate::promises::{a_block_may_end_anywhere, block_steps};
use crate::session::{always, swept, Work};
use crate::slot::{advanced, Ctx, Effect, SlotInput, SlotState};
use crate::storage::{capturing_keeps_pool, capturing_keeps_shape};
use crate::time::Frames;
use crate::transport::{
    advances, arrived, beat_report, begins_block, capture_step, captured_run, changes, clicks,
    commanded, commit_step, commits, cuts_short, delivered, finishes_run, handled, load_cost,
    on_new_beat, reaches_boundary, refusal_step, refusals_settle, regridded_at_start,
    reports_clock, rewinds, run_end, settles_load, starts_run, tail_step, tails_end, takes_in,
    tone_at, with_pad, Capturing, EngineView, Run,
};

verus! {

/// Frames of a clip that were captured, while it is captured into, and that can be heard from
/// then on: its loop and its tail.
pub open spec fn known<S>(clip: ClipView<S>, recording: Option<Recording>) -> int {
    match recording {
        Some(recording) => recording.frames as int,
        None => clip.len + clip.tail,
    }
}

/// A count that does not go below nothing.
pub open spec fn at_least_none(count: int) -> nat {
    if count > 0 {
        count as nat
    } else {
        0
    }
}

/// The first frames of a clip as they read.
pub open spec fn frames_read<S>(clip: ClipView<S>, count: int) -> Seq<Seq<S>> {
    Seq::new(
        at_least_none(count),
        |at: int|
            Seq::new(
                at_least_none(clip.channels),
                |channel: int| clip.buffer.read(at, channel),
            ),
    )
}

/// The audio of a pad that was captured or can be heard, frame by frame.
pub open spec fn heard<S>(v: AudioView<S>, place: int) -> Seq<Seq<S>> {
    match v.clips[place] {
        Some(clip) => frames_read(clip, known(clip, v.recordings[place])),
        None => Seq::empty(),
    }
}

/// A clip without its storage.
pub open spec fn bare_clip<S>(clip: Option<ClipView<S>>) -> Option<ClipView<S>> {
    match clip {
        Some(clip) => Some(
            ClipView { buffer: BufferView { chunks: Seq::empty(), ..clip.buffer }, ..clip },
        ),
        None => None,
    }
}

/// The audio half without its storage, who was asked about it, and how often it was looked at.
pub open spec fn bare_audio<S>(v: AudioView<S>) -> AudioView<S> {
    AudioView {
        clips: Seq::new(64, |place: int| bare_clip(v.clips[place])),
        pool: PoolView { free: Seq::empty(), ..v.pool },
        asked: Seq::empty(),
        drained: 0,
        ..v
    }
}

/// The audio of every pad.
pub open spec fn all_heard<S>(v: AudioView<S>) -> Seq<Seq<Seq<S>>> {
    Seq::new(64, |place: int| heard(v, place))
}

/// What an engine comes down to.
#[verifier::ext_equal]
pub struct Essence<S> {
    /// Everything but where audio is stored and what depends on how often something is done: how
    /// often the queues were looked at, and how far the clock was reported.
    pub bare: EngineView<S>,
    /// The audio of every pad.
    pub audio: Seq<Seq<Seq<S>>>,
}

/// What an engine comes down to.
pub open spec fn essence<S>(v: EngineView<S>) -> Essence<S> {
    Essence {
        bare: EngineView {
            audio: bare_audio(v.audio),
            idle: 0,
            last_clock: 0,
            clock_total: 0,
            silenced: false,
            ..v
        },
        audio: all_heard(v.audio),
    }
}

/// Whether two audio halves come down to the same.
spec fn alike<S>(v: AudioView<S>, w: AudioView<S>) -> bool {
    bare_audio(v) == bare_audio(w) && all_heard(v) == all_heard(w)
}

/// What being alike means for one pad.
proof fn alike_at<S>(v: AudioView<S>, w: AudioView<S>, place: int)
    requires
        alike(v, w),
        0 <= place < 64,
    ensures
        heard(v, place) == heard(w, place),
        bare_clip(v.clips[place]) == bare_clip(w.clips[place]),
        (v.clips[place] is Some) == (w.clips[place] is Some),
        v.recordings == w.recordings,
        v.shells == w.shells,
        v.anchors == w.anchors,
        v.refused == w.refused,
{
    assert(all_heard(v)[place] == all_heard(w)[place]);
    assert(bare_audio(v).clips[place] == bare_audio(w).clips[place]);
    assert(bare_audio(v).recordings == v.recordings);
    assert(bare_audio(w).recordings == w.recordings);
    assert(bare_audio(v).shells == v.shells);
    assert(bare_audio(w).shells == w.shells);
}

/// Audio halves whose pads are alike and whose other parts are equal are alike.
proof fn alike_by_pads<S>(v: AudioView<S>, w: AudioView<S>)
    requires
        w == (AudioView {
            clips: w.clips,
            pool: w.pool,
            asked: w.asked,
            drained: w.drained,
            ..v
        }),
        w.pool == (PoolView { free: w.pool.free, ..v.pool }),
        forall|place: int|
            0 <= place < 64 ==> #[trigger] bare_clip(v.clips[place]) == bare_clip(w.clips[place])
                && heard(v, place) == heard(w, place),
    ensures
        alike(v, w),
{
    assert(bare_audio(v).clips =~= bare_audio(w).clips);
    assert forall|place: int| 0 <= place < 64 implies all_heard(v)[place] == all_heard(
        w,
    )[place] by {
        assert(bare_clip(v.clips[place]) == bare_clip(w.clips[place]));
    }
    assert(all_heard(v) =~= all_heard(w));
    assert(bare_audio(v) =~= bare_audio(w));
}

/// Alike audio halves differ in their pads' clips, their storage, who was asked and how often
/// alone.
proof fn alike_but_for<S>(v: AudioView<S>, w: AudioView<S>)
    requires
        alike(v, w),
    ensures
        w == (AudioView {
            clips: w.clips,
            pool: w.pool,
            asked: w.asked,
            drained: w.drained,
            ..v
        }),
        w.pool == (PoolView { free: w.pool.free, ..v.pool }),
{
    let a = bare_audio(v);
    let b = bare_audio(w);
    assert(a.pool == b.pool);
    assert(w =~= (AudioView {
        clips: w.clips,
        pool: w.pool,
        asked: w.asked,
        drained: w.drained,
        ..v
    })) by {
        assert(a.recordings == b.recordings && a.shells == b.shells && a.retired == b.retired
            && a.published == b.published && a.lost == b.lost && a.next_clip_id == b.next_clip_id
            && a.capture_offset == b.capture_offset && a.bar_frames == b.bar_frames
            && a.tail_frames == b.tail_frames && a.inputs == b.inputs && a.launch_modes
            == b.launch_modes && a.pickups == b.pickups && a.anchors == b.anchors && a.refused
            == b.refused && a.receiving == b.receiving && a.staged_grid == b.staged_grid
            && a.staged == b.staged && a.returned == b.returned);
    }
}

/// Whether every take in progress has storage, with all it captured so far in it.
pub open spec fn takes_in_hand<S>(v: AudioView<S>) -> bool {
    forall|place: int|
        0 <= place < 64 ==> ((#[trigger] v.recordings[place]) matches Some(recording)
            ==> !recording.starved && v.clips[place] is Some && holds_through(
            v.clips[place]->Some_0,
            recording.frames as int,
        ))
}

/// Whether a clip holds all of its first frames.
pub open spec fn holds_through<S>(clip: ClipView<S>, frames: int) -> bool {
    forall|at: int, channel: int|
        0 <= at < frames && 0 <= channel < clip.channels ==> (#[trigger] clip.buffer.at(
            at,
            channel,
        )) is Some
}

/// Whether a piece of work is what the transport moving on calls for.
spec fn moves_on(piece: (SlotAddr, Effect)) -> bool {
    piece.0.wf() && (piece.1 is StartCapture || piece.1 is FinishCapture
        || piece.1 is StartPlayback || piece.1 is StopPlayback)
}

/// Whether all of it is.
spec fn all_move_on(work: Work) -> bool {
    forall|i: int| 0 <= i < work.len() ==> moves_on(#[trigger] work[i])
}

/// The transport moving on calls for nothing else.
proof fn sweeping_moves_on(states: Seq<SlotState>, ctx: Ctx, to: int)
    requires
        0 <= to <= 64,
    ensures
        all_move_on(swept(states, always(SlotInput::Advance), ctx, 0, to)),
    decreases to,
{
    if to > 0 {
        sweeping_moves_on(states, ctx, to - 1);
        let before = swept(states, always(SlotInput::Advance), ctx, 0, to - 1);
        let all = swept(states, always(SlotInput::Advance), ctx, 0, to);
        places_are_addresses(SlotAddr::at(to - 1), to - 1);
        assert forall|i: int| 0 <= i < all.len() implies moves_on(#[trigger] all[i]) by {
            if i < before.len() {
                assert(all[i] == before[i]);
            } else {
                let effects = advanced(states[to - 1], ctx).1;
                assert(all[i] == (SlotAddr::at(to - 1), effects[i - before.len()]));
            }
        }
    }
}

/// Whether a set of pads is empty.
pub open spec fn nobody(mask: PadMask) -> bool {
    forall|place: int| 0 <= place < 64 ==> !#[trigger] holds_place(mask, place)
}

/// Whether nobody else was found to be reading a clip from one moment to another.
pub open spec fn unread<S>(v: AudioView<S>, w: AudioView<S>) -> bool {
    &&& v.asked.is_prefix_of(w.asked)
    &&& forall|i: int| v.asked.len() <= i < w.asked.len() ==> #[trigger] w.asked[i]
}

/// Clips that read the same hold the same frames.
proof fn same_frames<S>(a: ClipView<S>, b: ClipView<S>, count: int)
    requires
        a.channels == b.channels,
        forall|at: int, channel: int|
            0 <= at < count && 0 <= channel < a.channels ==> #[trigger] a.buffer.read(at, channel)
                == b.buffer.read(at, channel),
    ensures
        frames_read(a, count) == frames_read(b, count),
{
    let x = frames_read(a, count);
    let y = frames_read(b, count);
    assert forall|at: int| 0 <= at < x.len() implies x[at] == y[at] by {
        assert forall|channel: int| 0 <= channel < x[at].len() implies x[at][channel]
            == y[at][channel] by {
            assert(a.buffer.read(at, channel) == b.buffer.read(at, channel));
        }
        assert(x[at] =~= y[at]);
    }
    assert(x =~= y);
}

/// What a piece of work leaves of the audio of its own pad: a take that starts has none, and
/// nothing else touches any.
proof fn one_piece_heard<S>(
    v: AudioView<S>,
    addr: SlotAddr,
    effect: Effect,
    w: AudioView<S>,
    events: Seq<Event>,
)
    requires
        v.wf(),
        moves_on((addr, effect)),
        applied(v, addr, effect, true, w, events),
        nobody(w.refused),
    ensures
        heard(w, addr.place()) == (if effect is StartCapture {
            Seq::<Seq<S>>::empty()
        } else {
            heard(v, addr.place())
        }),
{
    let place = addr.place();
    places_are_addresses(addr, 0);
    or_bit(v.refused, place as u64);
    if effect is StartCapture {
        assert(holds_place(v.refused | (1u64 << (place as u64)), place));
        assert(w.clips[place] is Some && w.recordings[place] is Some);
        assert(heard(w, place) =~= Seq::<Seq<S>>::empty());
    } else if effect is FinishCapture && v.clips[place] is Some && w.clips[place] is Some {
        same_frames(
            v.clips[place]->Some_0,
            w.clips[place]->Some_0,
            known(v.clips[place]->Some_0, v.recordings[place]),
        );
    }
}

/// A piece of work leaves storage as wide as it says, and every take with what it captured.
proof fn one_piece_keeps<S>(
    v: AudioView<S>,
    addr: SlotAddr,
    effect: Effect,
    w: AudioView<S>,
    events: Seq<Event>,
)
    requires
        v.wf(),
        takes_in_hand(v),
        moves_on((addr, effect)),
        applied(v, addr, effect, true, w, events),
        nobody(w.refused),
    ensures
        w.wf(),
        takes_in_hand(w),
        w == (AudioView {
            clips: w.clips,
            recordings: w.recordings,
            shells: w.shells,
            next_clip_id: w.next_clip_id,
            anchors: w.anchors,
            asked: w.asked,
            ..v
        }),
{
    let place = addr.place();
    places_are_addresses(addr, 0);
    or_bit(v.refused, place as u64);
    assert(holds_place(v.refused | (1u64 << (place as u64)), place));
    assert forall|p: int| 0 <= p < 64 && (#[trigger] w.clips[p]) is Some implies
        w.clips[p]->Some_0.wf() by {
        assert(v.clips[p] is Some ==> v.clips[p]->Some_0.wf());
    }
    assert forall|p: int|
        0 <= p < 64 && (#[trigger] w.clips[p]) is Some && w.recordings[p] is Some implies
        w.clips[p]->Some_0.channels == w.pool.channels by {
        assert(v.clips[p] is Some && v.recordings[p] is Some ==> v.clips[p]->Some_0.channels
            == v.pool.channels);
    }
    assert forall|p: int| 0 <= p < 64 implies ((#[trigger] w.recordings[p]) matches Some(recording)
        ==> !recording.starved && w.clips[p] is Some && holds_through(
        w.clips[p]->Some_0,
        recording.frames as int,
    )) by {
        assert(v.recordings[p] == v.recordings[p]);
        if p == place && effect is FinishCapture && v.recordings[p] is Some && v.clips[p] is Some {
            let before = v.clips[p]->Some_0;
            let after = w.clips[p]->Some_0;
            assert(after.buffer == before.buffer);
            assert(holds_through(before, v.recordings[p]->Some_0.frames as int));
            assert forall|at: int, channel: int|
                0 <= at < v.recordings[p]->Some_0.frames && 0 <= channel < after.channels implies (
            #[trigger] after.buffer.at(at, channel)) is Some by {
                assert(before.buffer.at(at, channel) is Some);
            }
        }
    }
}

/// One piece of work does the same to alike audio halves, where nobody else reads and nothing is
/// refused.
proof fn one_piece_alike<S>(
    v: AudioView<S>,
    u: AudioView<S>,
    addr: SlotAddr,
    effect: Effect,
    w: AudioView<S>,
    events: Seq<Event>,
    x: AudioView<S>,
    others: Seq<Event>,
)
    requires
        alike(v, u),
        v.wf(),
        u.wf(),
        takes_in_hand(v),
        takes_in_hand(u),
        moves_on((addr, effect)),
        applied(v, addr, effect, true, w, events),
        applied(u, addr, effect, true, x, others),
        nobody(w.refused),
        nobody(x.refused),
    ensures
        alike(w, x),
        events == others,
        w.wf(),
        x.wf(),
        takes_in_hand(w),
        takes_in_hand(x),
{
    let place = addr.place();
    places_are_addresses(addr, 0);
    alike_at(v, u, place);
    alike_but_for(v, u);
    or_bit(v.refused, place as u64);
    or_bit(u.refused, place as u64);
    one_piece_keeps(v, addr, effect, w, events);
    one_piece_keeps(u, addr, effect, x, others);
    assert(v.inputs == u.inputs && v.launch_modes == u.launch_modes && v.tail_frames
        == u.tail_frames && v.capture_offset == u.capture_offset);
    assert(holds_place(v.refused | (1u64 << (place as u64)), place));
    assert(holds_place(u.refused | (1u64 << (place as u64)), place));
    assert(w.recordings == x.recordings);
    assert(w.shells == x.shells);
    assert(w.next_clip_id == x.next_clip_id);
    if v.clips[place] is Some {
        let a = v.clips[place]->Some_0;
        let b = u.clips[place]->Some_0;
        assert(bare_clip(Some(a)) == bare_clip(Some(b)));
        assert(a.capture_offset == b.capture_offset);
    }
    assert(w.anchors == x.anchors);
    assert forall|p: int| 0 <= p < 64 implies #[trigger] bare_clip(w.clips[p]) == bare_clip(
        x.clips[p],
    ) && heard(w, p) == heard(x, p) by {
        alike_at(v, u, p);
        if p == place {
            if v.clips[p] is Some {
                let a = v.clips[p]->Some_0;
                let b = u.clips[p]->Some_0;
                assert(bare_clip(Some(a)) == bare_clip(Some(b)));
                let bare = BufferView { chunks: Seq::<Option<Seq<S>>>::empty(), ..a.buffer };
                assert(bare == (BufferView { chunks: Seq::empty(), ..b.buffer }));
            }
            one_piece_heard(v, addr, effect, w, events);
            one_piece_heard(u, addr, effect, x, others);
        } else {
            assert(heard(w, p) == heard(v, p));
            assert(heard(x, p) == heard(u, p));
        }
    }
    alike_by_pads(w, x);
}

/// A piece of work adds at most one answer, and where the answer is that nobody else reads, does
/// what it does then. It takes nobody out of the refused.
proof fn one_piece_asks<S>(
    v: AudioView<S>,
    addr: SlotAddr,
    effect: Effect,
    alone: bool,
    w: AudioView<S>,
    events: Seq<Event>,
)
    requires
        moves_on((addr, effect)),
        applied(v, addr, effect, alone, w, events),
    ensures
        v.asked.is_prefix_of(w.asked),
        unread(v, w) ==> applied(v, addr, effect, true, w, events),
        nobody(w.refused) ==> nobody(v.refused),
{
    let place = addr.place();
    places_are_addresses(addr, 0);
    or_bit(v.refused, place as u64);
    if w.asked != v.asked {
        assert(w.asked == v.asked.push(alone));
        assert(w.asked[v.asked.len() as int] == alone);
    }
    if nobody(w.refused) {
        assert forall|p: int| 0 <= p < 64 implies !#[trigger] holds_place(v.refused, p) by {
            assert(holds_place(v.refused | (1u64 << (place as u64)), p) <==> holds_place(
                v.refused,
                p,
            ) || p == place);
            assert(!holds_place(w.refused, p));
        }
    }
}

/// Work only ever adds answers.
proof fn work_asks<S>(v: AudioView<S>, work: Work, w: AudioView<S>, events: Seq<Event>)
    requires
        all_move_on(work),
        worked(v, work, w, events),
    ensures
        v.asked.is_prefix_of(w.asked),
    decreases work.len(),
{
    if work.len() > 0 {
        let (mid, count, alone) = choose|mid: AudioView<S>, count: int, alone: bool|
            #![trigger applied(mid, work.last().0, work.last().1, alone, w, events.skip(count))]
            0 <= count <= events.len() && worked(v, work.drop_last(), mid, events.take(count))
                && applied(mid, work.last().0, work.last().1, alone, w, events.skip(count));
        all_but_the_last(work);
        work_asks(v, work.drop_last(), mid, events.take(count));
        one_piece_asks(
            mid,
            work.last().0,
            work.last().1,
            alone,
            w,
            events.skip(count),
        );
    }
}

proof fn all_but_the_last(work: Work)
    requires
        all_move_on(work),
        work.len() > 0,
    ensures
        all_move_on(work.drop_last()),
        moves_on(work.last()),
        moves_on((work.last().0, work.last().1)),
{
    assert forall|i: int| 0 <= i < work.drop_last().len() implies moves_on(
        #[trigger] work.drop_last()[i],
    ) by {
        assert(work[i] == work.drop_last()[i]);
    }
    assert(work[work.len() - 1] == work.last());
}

/// Work does the same to alike audio halves, where nobody else reads and nothing is refused.
proof fn work_alike<S>(
    v: AudioView<S>,
    u: AudioView<S>,
    work: Work,
    w: AudioView<S>,
    events: Seq<Event>,
    x: AudioView<S>,
    others: Seq<Event>,
)
    requires
        alike(v, u),
        v.wf(),
        u.wf(),
        takes_in_hand(v),
        takes_in_hand(u),
        all_move_on(work),
        worked(v, work, w, events),
        worked(u, work, x, others),
        unread(v, w),
        unread(u, x),
        nobody(w.refused),
        nobody(x.refused),
    ensures
        alike(w, x),
        events == others,
        w.wf(),
        x.wf(),
        takes_in_hand(w),
        takes_in_hand(x),
        w == (AudioView {
            clips: w.clips,
            recordings: w.recordings,
            shells: w.shells,
            next_clip_id: w.next_clip_id,
            anchors: w.anchors,
            asked: w.asked,
            ..v
        }),
        x.refused == u.refused,
    decreases work.len(),
{
    if work.len() > 0 {
        let (a, m, p) = choose|mid: AudioView<S>, count: int, alone: bool|
            #![trigger applied(mid, work.last().0, work.last().1, alone, w, events.skip(count))]
            0 <= count <= events.len() && worked(v, work.drop_last(), mid, events.take(count))
                && applied(mid, work.last().0, work.last().1, alone, w, events.skip(count));
        let (b, n, q) = choose|mid: AudioView<S>, count: int, alone: bool|
            #![trigger applied(mid, work.last().0, work.last().1, alone, x, others.skip(count))]
            0 <= count <= others.len() && worked(u, work.drop_last(), mid, others.take(count))
                && applied(mid, work.last().0, work.last().1, alone, x, others.skip(count));
        let (addr, effect) = work.last();
        let list = work.drop_last();
        all_but_the_last(work);
        work_asks(v, list, a, events.take(m));
        work_asks(u, list, b, others.take(n));
        one_piece_asks(a, addr, effect, p, w, events.skip(m));
        one_piece_asks(b, addr, effect, q, x, others.skip(n));
        unread_in_two(v, a, w);
        unread_in_two(u, b, x);
        work_alike(v, u, list, a, events.take(m), b, others.take(n));
        one_piece_alike(a, b, addr, effect, w, events.skip(m), x, others.skip(n));
        one_piece_keeps(a, addr, effect, w, events.skip(m));
        one_piece_keeps(b, addr, effect, x, others.skip(n));
        assert(events =~= events.take(m) + events.skip(m));
        assert(others =~= others.take(n) + others.skip(n));
    }
}

/// Where nobody reads from one moment to another, nobody does up to one in between, nor from then
/// on.
proof fn unread_in_two<S>(v: AudioView<S>, mid: AudioView<S>, w: AudioView<S>)
    requires
        unread(v, w),
        v.asked.is_prefix_of(mid.asked),
        mid.asked.is_prefix_of(w.asked),
    ensures
        unread(v, mid),
        unread(mid, w),
{
    assert forall|i: int| v.asked.len() <= i < mid.asked.len() implies #[trigger] mid.asked[i] by {
        assert(w.asked[i] == mid.asked[i]);
    }
}

/// Whether no pad was reported as refused.
pub open spec fn none_refused(events: Seq<Event>) -> bool {
    forall|i: int| 0 <= i < events.len() ==> !((#[trigger] events[i]) is RecordingRefused)
}

/// Where no refusal is reported, nobody was refused, and settling that changes nothing.
proof fn no_refusal_settles<S>(
    mask: PadMask,
    from: EngineView<S>,
    to: int,
    w: EngineView<S>,
    events: Seq<Event>,
)
    requires
        0 <= to <= 64,
        chained(refusal_step(mask), from, to, w, events),
        none_refused(events),
    ensures
        w == from,
        events == Seq::<Event>::empty(),
        forall|place: int| 0 <= place < to ==> !#[trigger] holds_place(mask, place),
    decreases to,
{
    let step = refusal_step::<S>(mask);
    if to > 0 {
        let (now, before, here) = choose|
            now: EngineView<S>,
            before: Seq<Event>,
            here: Seq<Event>,
        |
            #[trigger] linked(now, before, here) && events == before + here && chained(
                step,
                from,
                to - 1,
                now,
                before,
            ) && step(now, to - 1, w, here);
        assert forall|i: int| 0 <= i < before.len() implies !((
        #[trigger] before[i]) is RecordingRefused) by {
            assert(events[i] == before[i]);
        }
        no_refusal_settles(mask, from, to - 1, now, before);
        if holds_place(mask, to - 1) {
            let refused = Event::RecordingRefused { addr: SlotAddr::at(to - 1) };
            assert(here.last() == refused && here.len() > 0);
            assert(events[events.len() - 1] == refused);
        }
        assert(before + here =~= Seq::<Event>::empty());
    }
}

/// The steps of a boundary where no refusal is reported.
proof fn steady_boundary<S>(v: EngineView<S>, w: EngineView<S>, events: Seq<Event>) -> (first: Seq<
    Event,
>)
    requires
        on_new_beat(v),
        v.audio.refused == 0,
        reaches_boundary(v, w, events),
        none_refused(events),
    ensures
        nobody(w.audio.refused),
        ({
            let work = swept(v.session, always(SlotInput::Advance), v.moment(), 0, 64);
            exists|mid: AudioView<S>|
                #[trigger] worked(v.audio, work, mid, first) && nobody(mid.refused) && w.audio == (
                AudioView { refused: 0, ..mid })
        }),
        w == (EngineView {
            last_boundary: Some(v.position),
            session: v.session.map_values(|state: SlotState| advanced(state, v.moment()).0),
            audio: w.audio,
            ..v
        }),
        events == beat_report(v.grid, v.position.0 as int) + first + changes(
            v.session,
            w.session,
            64,
        ),
{
    let (mid, first, second) = choose|mid: EngineView<S>, first: Seq<Event>, second: Seq<Event>|
        #[trigger] advances(v, mid, first) && #[trigger] refusals_settle(mid, w, second)
            && events == beat_report(v.grid, v.position.0 as int) + first + second + changes(
            v.session,
            w.session,
            64,
        );
    let head = beat_report(v.grid, v.position.0 as int) + first;
    assert forall|i: int| 0 <= i < second.len() implies !((
    #[trigger] second[i]) is RecordingRefused) by {
        assert(events[head.len() + i] == second[i]);
    }
    no_refusal_settles(
        mid.audio.refused,
        EngineView { audio: AudioView { refused: 0, ..mid.audio }, ..mid },
        64,
        w,
        second,
    );
    assert(head + second =~= head);
    assert forall|place: int| 0 <= place < 64 implies !#[trigger] holds_place(
        w.audio.refused,
        place,
    ) by {
        none_held(place);
    }
    first
}

/// What fires at a boundary is the same for engines that come down to the same, where nobody else
/// reads and nothing is refused.
proof fn boundary_alike<S>(
    v: EngineView<S>,
    u: EngineView<S>,
    w: EngineView<S>,
    events: Seq<Event>,
    x: EngineView<S>,
    others: Seq<Event>,
)
    requires
        essence(v) == essence(u),
        v.wf(),
        u.wf(),
        takes_in_hand(v.audio),
        takes_in_hand(u.audio),
        reaches_boundary(v, w, events),
        reaches_boundary(u, x, others),
        unread(v.audio, w.audio),
        unread(u.audio, x.audio),
        none_refused(events),
        none_refused(others),
    ensures
        essence(w) == essence(x),
        events == others,
        w.wf(),
        x.wf(),
        takes_in_hand(w.audio),
        takes_in_hand(x.audio),
        w == (EngineView {
            last_boundary: w.last_boundary,
            session: w.session,
            audio: w.audio,
            ..v
        }),
        w.audio.drained == v.audio.drained,
{
    same_but_audio(v, u);
    assert(alike(v.audio, u.audio));
    if on_new_beat(v) {
        let work = swept(v.session, always(SlotInput::Advance), v.moment(), 0, 64);
        let first = steady_boundary(v, w, events);
        let second = steady_boundary(u, x, others);
        let a = choose|mid: AudioView<S>|
            #[trigger] worked(v.audio, work, mid, first) && nobody(mid.refused) && w.audio == (
            AudioView { refused: 0, ..mid });
        let b = choose|mid: AudioView<S>|
            #[trigger] worked(u.audio, work, mid, second) && nobody(mid.refused) && x.audio == (
            AudioView { refused: 0, ..mid });
        sweeping_moves_on(v.session, v.moment(), 64);
        assert(unread(v.audio, a));
        assert(unread(u.audio, b));
        work_alike(v.audio, u.audio, work, a, first, b, second);
        assert(w.audio =~= a);
        assert(x.audio =~= b);
        assert(w.session =~= x.session);
        assert(essence(w) =~= essence(x));
    }
}

/// Engines that come down to the same are equal but for their audio halves and what was counted.
proof fn same_but_audio<S>(v: EngineView<S>, u: EngineView<S>)
    requires
        essence(v) == essence(u),
    ensures
        u == (EngineView {
            audio: u.audio,
            idle: u.idle,
            last_clock: u.last_clock,
            clock_total: u.clock_total,
            silenced: u.silenced,
            ..v
        }),
        v.audio.next_clip_id == u.audio.next_clip_id,
        v.moment() == u.moment(),
        alike(v.audio, u.audio),
{
    let a = essence(v).bare;
    let b = essence(u).bare;
    assert(a.audio == bare_audio(v.audio));
    assert(b.audio == bare_audio(u.audio));
    assert(a.audio.next_clip_id == b.audio.next_clip_id);
    assert(u =~= (EngineView {
        audio: u.audio,
        idle: u.idle,
        last_clock: u.last_clock,
        clock_total: u.clock_total,
        silenced: u.silenced,
        ..v
    })) by {
        assert(a.grid == b.grid && a.position == b.position && a.session == b.session && a.click
            == b.click && a.subdivision == b.subdivision && a.received == b.received
            && a.channels == b.channels && a.capture_channels == b.capture_channels
            && a.paused == b.paused && a.muted == b.muted && a.soloed == b.soloed && a.gains
            == b.gains && a.declick == b.declick && a.pending == b.pending && a.last_boundary
            == b.last_boundary && a.sample_rate == b.sample_rate && a.time_signature
            == b.time_signature);
    }
}

/// Whether a tail is complete after a run.
pub open spec fn tail_due(recording: Recording, run: int) -> bool {
    recording.tail_until matches Some(until) && plus(recording.frames as int, run) >= until
}

/// Whether nothing was reported as short of storage.
pub open spec fn none_low(events: Seq<Event>) -> bool {
    forall|i: int| 0 <= i < events.len() ==> !((#[trigger] events[i]) is RecordBufferLow)
}

/// Whether every tail was given storage for the whole of a run, and ended where it was complete.
pub open spec fn tails_kept<S>(v: AudioView<S>, run: int, w: AudioView<S>) -> bool {
    forall|place: int|
        0 <= place < 64 ==> ((#[trigger] v.recordings[place]) matches Some(recording)
            ==> recording.tail_until is Some ==> if tail_due(recording, run) {
            w.recordings[place] is None && (w.clips[place] matches Some(clip) && clip.tail
                == recording.tail_written + run)
        } else {
            w.recordings[place] == Some(ran_on(recording, run, run))
        })
}

/// Whether no take was ended before it had its frames, and no tail is complete before the next
/// beat or click.
pub open spec fn in_good_time<S>(v: EngineView<S>) -> bool {
    forall|place: int|
        0 <= place < 64 ==> ((#[trigger] v.audio.recordings[place]) matches Some(recording)
            ==> recording.tail_until matches Some(until) ==> (v.audio.clips[place] matches Some(
            clip,
        ) && 0 <= clip.len && clip.len + recording.tail_written <= recording.frames)
            && recording.frames + (run_end(v) - v.position.0) <= until)
}

/// Capturing a run in which nothing is reported as short: every take is stored whole but for
/// tails, which say nothing, and the tails that are complete are known.
proof fn capturing_steadily<S>(
    v: AudioView<S>,
    captured: Seq<S>,
    channels: int,
    run: int,
    to: int,
    mid: Capturing<S>,
    events: Seq<Event>,
)
    requires
        v.wf(),
        takes_in_hand(v),
        0 < channels,
        0 < run,
        captured.len() as int / channels <= run,
        0 <= to <= 64,
        chained(
            capture_step(captured, channels, run),
            Capturing { audio: v, tailed: 0, out: 0 },
            to,
            mid,
            events,
        ),
        none_low(events),
    ensures
        ran_to(v, mid.audio, captured, channels, run, to),
        mid.out == 0,
        events == Seq::<Event>::empty(),
        forall|place: int|
            0 <= place < 64 ==> (#[trigger] holds_place(mid.tailed, place) <==> place < to && (
            v.recordings[place] matches Some(recording) && tail_due(recording, run))),
        forall|place: int|
            0 <= place < to ==> ((#[trigger] v.recordings[place]) matches Some(recording)
                ==> recording.tail_until is None ==> mid.audio.recordings[place] == Some(
                ran_on(recording, run, run),
            )),
        mid.audio.pool == (PoolView { free: mid.audio.pool.free, ..v.pool }),
    decreases to,
{
    let step = capture_step(captured, channels, run);
    let from = Capturing { audio: v, tailed: 0, out: 0 };
    if to == 0 {
        assert forall|place: int| 0 <= place < 64 implies !#[trigger] holds_place(
            mid.tailed,
            place,
        ) by {
            none_held(place);
        }
        assert(mid.audio == (AudioView {
            clips: mid.audio.clips,
            recordings: mid.audio.recordings,
            pool: mid.audio.pool,
            asked: mid.audio.asked,
            ..v
        }));
    } else {
        let place = to - 1;
        let (now, before, here) = choose|
            now: Capturing<S>,
            before: Seq<Event>,
            here: Seq<Event>,
        |
            #[trigger] linked(now, before, here) && events == before + here && chained(
                step,
                from,
                to - 1,
                now,
                before,
            ) && step(now, to - 1, mid, here);
        assert forall|i: int| 0 <= i < before.len() implies !((
        #[trigger] before[i]) is RecordBufferLow) by {
            assert(events[i] == before[i]);
        }
        capturing_steadily(v, captured, channels, run, to - 1, now, before);
        one_pad_runs(v, now, captured, channels, run, place, mid, here);
        let (alone, backed) = choose|alone: bool, backed: int|
            #[trigger] captures(
                now.audio,
                place,
                captured,
                channels,
                run,
                alone,
                mid.audio,
                backed,
            ) && {
                let made = verdict(now.audio.recordings[place], run, backed);
                &&& mid.tailed == (if made.tailed {
                    with_pad(now.tailed, place)
                } else {
                    now.tailed
                })
                &&& mid.out == (if made.out_of_room {
                    with_pad(now.out, place)
                } else {
                    now.out
                })
                &&& here == (if made.low {
                    seq![Event::RecordBufferLow { addr: SlotAddr::at(place) }]
                } else {
                    Seq::<Event>::empty()
                })
            };
        assert(now.audio.clips[place] == v.clips[place] && now.audio.recordings[place]
            == v.recordings[place]);
        capturing_keeps_shape(
            now.audio,
            place,
            captured,
            channels,
            run,
            alone,
            mid.audio,
            backed,
        );
        assert(v.recordings[place] == v.recordings[place]);
        let made = verdict(now.audio.recordings[place], run, backed);
        if made.low {
            assert(events[events.len() - 1] == here[0]);
        }
        assert(before + here =~= Seq::<Event>::empty());
        or_bit(now.tailed, place as u64);
        assert forall|p: int| 0 <= p < 64 implies (#[trigger] holds_place(mid.tailed, p) <==> p < to
            && (v.recordings[p] matches Some(recording) && tail_due(recording, run))) by {
            assert(holds_place(with_pad(now.tailed, place), p) <==> holds_place(now.tailed, p) || p
                == place);
            assert(holds_place(now.tailed, p) <==> p < place && (v.recordings[p] matches Some(
                recording,
            ) && tail_due(recording, run)));
        }
        assert forall|p: int| 0 <= p < to implies ((#[trigger] v.recordings[p]) matches Some(
            recording,
        ) ==> recording.tail_until is None ==> mid.audio.recordings[p] == Some(
            ran_on(recording, run, run),
        )) by {
            if p < place {
                assert(mid.audio.recordings[p] == now.audio.recordings[p]);
            }
        }
        capturing_keeps_pool(
            now.audio,
            place,
            captured,
            channels,
            run,
            alone,
            mid.audio,
            backed,
        );
    }
}

/// What ending the complete tails does to one pad.
spec fn pad_tailed<S>(
    from: AudioView<S>,
    w: AudioView<S>,
    place: int,
    tailed: PadMask,
    to: int,
) -> bool {
    ||| w.clips[place] == from.clips[place] && w.recordings[place] == from.recordings[place]
    ||| place < to && holds_place(tailed, place) && from.recordings[place] is Some && from.clips[place] is Some
        && w.recordings[place] is None && w.clips[place] == Some(
        ClipView {
            tail: from.recordings[place]->Some_0.tail_written as int,
            ..from.clips[place]->Some_0
        },
    )
}

/// Ending the complete tails leaves everything but those pads alone.
proof fn ending_tails<S>(
    from: AudioView<S>,
    tailed: PadMask,
    to: int,
    w: AudioView<S>,
    events: Seq<Event>,
)
    requires
        from.wf(),
        0 <= to <= 64,
        chained(tail_step(tailed), from, to, w, events),
    ensures
        w.wf(),
        w == (AudioView {
            clips: w.clips,
            recordings: w.recordings,
            asked: w.asked,
            ..from
        }),
        forall|place: int|
            0 <= place < 64 ==> #[trigger] pad_tailed(from, w, place, tailed, to),
    decreases to,
{
    let step = tail_step::<S>(tailed);
    if to > 0 {
        let (now, before, here) = choose|
            now: AudioView<S>,
            before: Seq<Event>,
            here: Seq<Event>,
        |
            #[trigger] linked(now, before, here) && events == before + here && chained(
                step,
                from,
                to - 1,
                now,
                before,
            ) && step(now, to - 1, w, here);
        ending_tails(from, tailed, to - 1, now, before);
        assert forall|place: int| 0 <= place < 64 implies #[trigger] pad_tailed(
            from,
            w,
            place,
            tailed,
            to,
        ) by {
            assert(pad_tailed(from, now, place, tailed, to - 1));
        }
        assert forall|p: int| 0 <= p < 64 && (#[trigger] w.clips[p]) is Some implies
            w.clips[p]->Some_0.wf() by {
            assert(now.clips[p] is Some && now.clips[p]->Some_0.wf());
        }
        assert forall|p: int|
            0 <= p < 64 && (#[trigger] w.clips[p]) is Some && w.recordings[p] is Some implies
            w.clips[p]->Some_0.channels == w.pool.channels by {
            assert(now.clips[p] is Some && now.recordings[p] is Some);
        }
    }
}

/// A take after a run: on by as many frames, or over if its tail is complete.
pub open spec fn take_after(recording: Option<Recording>, run: int) -> Option<Recording> {
    match recording {
        Some(recording) if !tail_due(recording, run) => Some(ran_on(recording, run, run)),
        _ => None,
    }
}

/// A clip after a run: it has its tail, if that is complete.
pub open spec fn clip_after<S>(
    clip: Option<ClipView<S>>,
    recording: Option<Recording>,
    run: int,
) -> Option<ClipView<S>> {
    match (clip, recording) {
        (Some(clip), Some(recording)) if tail_due(recording, run) => Some(
            ClipView { tail: recording.tail_written + run, ..clip },
        ),
        _ => clip,
    }
}

/// The frames of a run as a take captures them.
pub open spec fn frames_taken<S>(
    input: Seq<u8>,
    channels: int,
    captured: Seq<S>,
    width: int,
    run: int,
) -> Seq<Seq<S>> {
    Seq::new(
        at_least_none(run),
        |at: int|
            Seq::new(
                at_least_none(channels),
                |channel: int| picked(captured, width, input)(at, channel),
            ),
    )
}

/// The audio of a pad after a run: a take has captured it. Once the tail is complete, what is
/// past it counts no more.
pub open spec fn heard_after<S>(
    sound: Seq<Seq<S>>,
    clip: Option<ClipView<S>>,
    recording: Option<Recording>,
    captured: Seq<S>,
    width: int,
    run: int,
) -> Seq<Seq<S>> {
    match (clip, recording) {
        (Some(clip), Some(recording)) => {
            let all = sound + frames_taken(
                recording.input.picked(),
                clip.channels,
                captured,
                width,
                run,
            );
            if tail_due(recording, run) {
                all.take(clip.len + recording.tail_written + run)
            } else {
                all
            }
        },
        _ => sound,
    }
}

/// What an engine comes down to after a run of so many frames, with what it captured.
pub open spec fn ran_essence<S>(e: Essence<S>, captured: Seq<S>, run: int) -> Essence<S> {
    let audio = e.bare.audio;
    Essence {
        bare: EngineView {
            click: e.bare.click.played(run),
            position: Frames((e.bare.position.0 + run) as u64),
            audio: AudioView {
                recordings: Seq::new(64, |place: int| take_after(audio.recordings[place], run)),
                clips: Seq::new(
                    64,
                    |place: int| clip_after(audio.clips[place], audio.recordings[place], run),
                ),
                ..audio
            },
            ..e.bare
        },
        audio: Seq::new(
            64,
            |place: int|
                heard_after(
                    e.audio[place],
                    audio.clips[place],
                    audio.recordings[place],
                    captured,
                    e.bare.capture_channels,
                    run,
                ),
        ),
    }
}

/// A run in which nothing is reported as short and every tail is stored whole.
pub open spec fn finishes_steadily<S>(
    v: EngineView<S>,
    input: Seq<S>,
    offset: int,
    run: int,
    w: EngineView<S>,
    events: Seq<Event>,
) -> bool {
    &&& finishes_run(v, input, offset, run, w, events)
    &&& none_low(events)
    &&& tails_kept(v.audio, run, w.audio)
}

/// What one take comes to over a run.
proof fn take_runs<S>(
    v: EngineView<S>,
    captured: Seq<S>,
    run: int,
    audio: AudioView<S>,
    tailed: PadMask,
    w: AudioView<S>,
    place: int,
)
    requires
        v.wf(),
        takes_in_hand(v.audio),
        in_good_time(v),
        0 < run <= run_end(v) - v.position.0,
        captured.len() == run * v.capture_channels,
        ran_to(v.audio, audio, captured, v.capture_channels, run, 64),
        forall|p: int|
            0 <= p < 64 ==> ((#[trigger] v.audio.recordings[p]) matches Some(recording)
                ==> recording.tail_until is None ==> audio.recordings[p] == Some(
                ran_on(recording, run, run),
            )),
        forall|p: int|
            0 <= p < 64 ==> (#[trigger] holds_place(tailed, p) <==> (
            v.audio.recordings[p] matches Some(recording) && tail_due(recording, run))),
        pad_tailed(audio, w, place, tailed, 64),
        tails_kept(v.audio, run, w),
        0 <= place < 64,
    ensures
        w.recordings[place] == take_after(v.audio.recordings[place], run),
        bare_clip(w.clips[place]) == bare_clip(
            clip_after(v.audio.clips[place], v.audio.recordings[place], run),
        ),
        heard(w, place) == heard_after(
            heard(v.audio, place),
            v.audio.clips[place],
            v.audio.recordings[place],
            captured,
            v.capture_channels,
            run,
        ),
        w.recordings[place] matches Some(recording) ==> !recording.starved
            && w.clips[place] is Some && holds_through(
            w.clips[place]->Some_0,
            recording.frames as int,
        ),
{
    let width = v.capture_channels;
    let a = v.audio;
    assert(a.recordings[place] == a.recordings[place]);
    assert(ran(a, audio, captured, width, run, place));
    let backed = choose|backed: int| pad_ran(a, audio, captured, width, run, place, backed);
    assert(holds_place(tailed, place) <==> (a.recordings[place] matches Some(recording)
        && tail_due(recording, run)));
    if a.recordings[place] is Some {
        let recording = a.recordings[place]->Some_0;
        let before = a.clips[place]->Some_0;
        let middle = audio.clips[place]->Some_0;
        let from = recording.frames as int;
        assert(backed == run);
        assert(recording.frames + run <= u64::MAX);
        let input = recording.input.picked();
        let after = w.clips[place]->Some_0;
        assert(after.buffer == middle.buffer);
        assert(after.channels == before.channels);
        lemma_div_by_multiple(run, width);
        let added = frames_taken(input, before.channels, captured, width, run);
        let all = frames_read(before, from) + added;
        let read = frames_read(after, from + run);
        assert forall|at: int| 0 <= at < from + run implies #[trigger] read[at] == all[at] by {
            assert forall|channel: int| 0 <= channel < before.channels implies read[at][channel]
                == all[at][channel] by {
                let sample = middle.buffer.at(at, channel);
                assert(holds_after(
                    recording,
                    before,
                    sample,
                    captured,
                    width,
                    run,
                    at,
                    channel,
                ));
                if at < from {
                    assert(before.buffer.at(at, channel) is Some);
                }
            }
            assert(read[at] =~= all[at]);
        }
        assert(read =~= all);
        assert forall|at: int, channel: int|
            0 <= at < from + run && 0 <= channel < after.channels implies (
        #[trigger] after.buffer.at(at, channel)) is Some by {
            let sample = middle.buffer.at(at, channel);
            assert(holds_after(recording, before, sample, captured, width, run, at, channel));
            if at < from {
                assert(before.buffer.at(at, channel) is Some);
            }
        }
        if tail_due(recording, run) {
            let count = before.len + recording.tail_written + run;
            assert(frames_read(after, count) =~= all.take(count)) by {
                assert forall|at: int| 0 <= at < count implies frames_read(after, count)[at]
                    == all.take(count)[at] by {
                    assert(read[at] == all[at]);
                    assert(frames_read(after, count)[at] =~= read[at]);
                }
            }
            assert(bare_clip(Some(after)) == bare_clip(Some(ClipView { tail: after.tail, ..before })))
                by {
                assert(middle == (ClipView { buffer: middle.buffer, ..before }));
                assert(middle.buffer.channels == before.buffer.channels);
                assert(BufferView { chunks: Seq::<Option<Seq<S>>>::empty(), ..middle.buffer }
                    == BufferView { chunks: Seq::<Option<Seq<S>>>::empty(), ..before.buffer });
            }
        } else {
            assert(bare_clip(Some(after)) == bare_clip(Some(before))) by {
                assert(middle == (ClipView { buffer: middle.buffer, ..before }));
                assert(BufferView { chunks: Seq::<Option<Seq<S>>>::empty(), ..middle.buffer }
                    == BufferView { chunks: Seq::<Option<Seq<S>>>::empty(), ..before.buffer });
            }
        }
    }
}

/// A steady run does to what an engine comes down to what a run does, and nothing else.
proof fn run_comes_down<S>(
    v: EngineView<S>,
    input: Seq<S>,
    offset: int,
    run: int,
    w: EngineView<S>,
    events: Seq<Event>,
)
    requires
        v.wf(),
        takes_in_hand(v.audio),
        in_good_time(v),
        0 < clicks(v),
        0 < run <= run_end(v) - v.position.0,
        run_end(v) <= u64::MAX,
        0 <= offset,
        delivered(input, v.capture_channels, offset, run).len() == run * v.capture_channels,
        finishes_steadily(v, input, offset, run, w, events),
    ensures
        essence(w) == ran_essence(
            essence(v),
            delivered(input, v.capture_channels, offset, run),
            run,
        ),
        events == Seq::<Event>::empty(),
        w.wf(),
        takes_in_hand(w.audio),
        w == (EngineView { audio: w.audio, ..moved_on(v, run) }),
        w.audio.drained == v.audio.drained,
        run < run_end(v) - v.position.0 ==> in_good_time(w),
{
    let width = v.capture_channels;
    let captured = delivered(input, width, offset, run);
    let (mid, audio, first, second) = choose|
        mid: Capturing<S>,
        audio: AudioView<S>,
        first: Seq<Event>,
        second: Seq<Event>,
    |
        #![trigger captured_run(v, input, offset, run, mid, first), tails_end(mid, audio), first + second]
        captured_run(v, input, offset, run, mid, first) && tails_end(mid, audio) && cuts_short(
            EngineView { audio, ..v },
            mid.out,
            EngineView { click: v.click, position: v.position, ..w },
            second,
        ) && events == first + second && w.click == v.click.played(run) && w.position == Frames(
            (v.position.0 + run) as u64,
        );
    delivered_fits(input, width, offset, run);
    assert forall|i: int| 0 <= i < first.len() implies !((
    #[trigger] first[i]) is RecordBufferLow) by {
        assert(events[i] == first[i]);
    }
    capturing_steadily(v.audio, captured, width, run, 64, mid, first);
    ending_tails(mid.audio, mid.tailed, 64, audio, Seq::empty());
    assert(first + second =~= Seq::<Event>::empty());
    assert(w.audio == audio);
    assert(w =~= (EngineView { audio: w.audio, ..moved_on(v, run) }));
    let goal = ran_essence(essence(v), captured, run);
    let bare = bare_audio(v.audio);
    assert forall|place: int| 0 <= place < 64 implies #[trigger] w.audio.recordings[place]
        == take_after(v.audio.recordings[place], run) && bare_clip(w.audio.clips[place])
        == clip_after(bare.clips[place], bare.recordings[place], run) && heard(w.audio, place)
        == heard_after(
        heard(v.audio, place),
        bare.clips[place],
        bare.recordings[place],
        captured,
        width,
        run,
    ) && (w.audio.recordings[place] matches Some(recording) ==> !recording.starved
        && w.audio.clips[place] is Some && holds_through(
        w.audio.clips[place]->Some_0,
        recording.frames as int,
    )) by {
        assert(pad_tailed(mid.audio, audio, place, mid.tailed, 64));
        take_runs(v, captured, run, mid.audio, mid.tailed, audio, place);
        assert(bare_clip(
            clip_after(v.audio.clips[place], v.audio.recordings[place], run),
        ) == clip_after(bare.clips[place], bare.recordings[place], run));
    }
    assert(w.audio.recordings =~= goal.bare.audio.recordings);
    assert(bare_audio(w.audio).clips =~= goal.bare.audio.clips);
    assert(all_heard(w.audio) =~= goal.audio);
    assert(bare_audio(w.audio) =~= goal.bare.audio);
    assert(essence(w) =~= goal);
    if run < run_end(v) - v.position.0 {
        a_block_may_end_anywhere(v, moved_on(v, run), run);
        assert(run_end(w) == run_end(v));
        assert forall|place: int| 0 <= place < 64 implies ((
        #[trigger] w.audio.recordings[place]) matches Some(recording)
            ==> recording.tail_until matches Some(until) ==> (w.audio.clips[place] matches Some(
            clip,
        ) && 0 <= clip.len && clip.len + recording.tail_written <= recording.frames)
            && recording.frames + (run_end(w) - w.position.0) <= until) by {
            assert(w.audio.recordings[place] == take_after(v.audio.recordings[place], run));
            assert(v.audio.recordings[place] == v.audio.recordings[place]);
            assert(bare_clip(w.audio.clips[place]) == clip_after(
                bare.clips[place],
                bare.recordings[place],
                run,
            ));
        }
    }
}

/// What two runs in a row capture is what one does.
proof fn frames_add_up<S>(
    picks: Seq<u8>,
    channels: int,
    first: Seq<S>,
    a: int,
    second: Seq<S>,
    b: int,
    width: int,
)
    requires
        0 < a,
        0 < b,
        0 < width,
        0 < picks.len(),
        first.len() == a * width,
        second.len() == b * width,
    ensures
        frames_taken(picks, channels, first, width, a) + frames_taken(
            picks,
            channels,
            second,
            width,
            b,
        ) == frames_taken(picks, channels, first + second, width, a + b),
{
    let x = frames_taken(picks, channels, first, width, a);
    let y = frames_taken(picks, channels, second, width, b);
    let all = frames_taken(picks, channels, first + second, width, a + b);
    lemma_div_by_multiple(b, width);
    assert forall|at: int| 0 <= at < a + b implies #[trigger] all[at] == (x + y)[at] by {
        assert forall|channel: int| 0 <= channel < at_least_none(channels) implies all[at][channel]
            == (x + y)[at][channel] by {
            frames_in_a_row(first, second, width, a, picks, at, channel);
        }
        assert(all[at] =~= (x + y)[at]);
    }
    assert(all =~= x + y);
}

/// A take that goes on for two runs goes on for both.
proof fn takes_add_up(recording: Recording, a: int, b: int)
    requires
        0 < a,
        0 < b,
        recording.tail_until matches Some(until) ==> recording.frames + a + b <= until
            && recording.tail_written <= recording.frames,
    ensures
        !tail_due(recording, a),
        tail_due(ran_on(recording, a, a), b) == tail_due(recording, a + b),
        ran_on(ran_on(recording, a, a), b, b) == ran_on(recording, a + b, a + b),
        recording.tail_until is Some ==> ran_on(recording, a, a).tail_written
            == recording.tail_written + a,
{
}

/// Two runs in a row leave a pad with the audio that one does.
proof fn pad_adds_up<S>(
    sound: Seq<Seq<S>>,
    clip: ClipView<S>,
    recording: Recording,
    first: Seq<S>,
    a: int,
    second: Seq<S>,
    b: int,
    width: int,
)
    requires
        0 < a,
        0 < b,
        0 < width,
        first.len() == a * width,
        second.len() == b * width,
        recording.tail_until matches Some(until) ==> recording.frames + a + b <= until
            && recording.tail_written <= recording.frames,
    ensures
        ({
            let next = Some(ran_on(recording, a, a));
            let mid = heard_after(sound, Some(clip), Some(recording), first, width, a);
            heard_after(mid, Some(clip), next, second, width, b) == heard_after(
                sound,
                Some(clip),
                Some(recording),
                first + second,
                width,
                a + b,
            )
        }),
{
    let picks = recording.input.picked();
    takes_add_up(recording, a, b);
    frames_add_up(picks, clip.channels, first, a, second, b, width);
    let x = frames_taken(picks, clip.channels, first, width, a);
    let y = frames_taken(picks, clip.channels, second, width, b);
    assert(sound + x + y =~= sound + (x + y));
}

/// Two runs in a row are one, as long as no tail is complete before the end.
proof fn runs_add_up<S>(e: Essence<S>, first: Seq<S>, a: int, second: Seq<S>, b: int)
    requires
        0 < a,
        0 < b,
        0 < e.bare.capture_channels,
        first.len() == a * e.bare.capture_channels,
        second.len() == b * e.bare.capture_channels,
        e.bare.position.0 + a + b <= u64::MAX,
        e.bare.click.played(a).played(b) == e.bare.click.played(a + b),
        forall|place: int|
            0 <= place < 64 ==> ((#[trigger] e.bare.audio.recordings[place]) matches Some(recording)
                ==> recording.tail_until matches Some(until) ==> recording.frames + a + b <= until
                && recording.tail_written <= recording.frames),
    ensures
        ran_essence(ran_essence(e, first, a), second, b) == ran_essence(e, first + second, a + b),
{
    let mid = ran_essence(e, first, a);
    let left = ran_essence(mid, second, b);
    let right = ran_essence(e, first + second, a + b);
    let audio = e.bare.audio;
    let width = e.bare.capture_channels;
    assert forall|place: int| 0 <= place < 64 implies left.bare.audio.recordings[place]
        == right.bare.audio.recordings[place] && left.bare.audio.clips[place]
        == right.bare.audio.clips[place] && left.audio[place] == right.audio[place] by {
        assert(mid.bare.audio.recordings[place] == take_after(audio.recordings[place], a));
        assert(mid.bare.audio.clips[place] == clip_after(
            audio.clips[place],
            audio.recordings[place],
            a,
        ));
        if audio.recordings[place] is Some {
            let recording = audio.recordings[place]->Some_0;
            takes_add_up(recording, a, b);
            if audio.clips[place] is Some {
                pad_adds_up(
                    e.audio[place],
                    audio.clips[place]->Some_0,
                    recording,
                    first,
                    a,
                    second,
                    b,
                    width,
                );
            }
        }
    }
    assert(left.bare.audio.recordings =~= right.bare.audio.recordings);
    assert(left.bare.audio.clips =~= right.bare.audio.clips);
    assert(left.audio =~= right.audio);
    assert(left.bare =~= right.bare);
    assert(left =~= right);
}

/// A run that starts with nobody else found to be reading a take, none refused, and every take in
/// good time.
pub open spec fn starts_steadily<S>(
    v: EngineView<S>,
    left: int,
    on: EngineView<S>,
    events: Seq<Event>,
    run: Run,
) -> bool {
    &&& starts_run(v, left, on, events, run)
    &&& unread(v.audio, on.audio)
    &&& none_refused(events)
}

/// What an engine comes down to once everything due has fired.
pub open spec fn fires_into<S>(e: Essence<S>, f: Essence<S>, events: Seq<Event>) -> bool {
    exists|v: EngineView<S>, left: int, on: EngineView<S>, run: Run|
        essence(v) == e && v.wf() && takes_in_hand(v.audio) && #[trigger] starts_steadily(
            v,
            left,
            on,
            events,
            run,
        ) && essence(on) == f
}

/// What an engine comes down to once everything due has fired, and what is reported.
pub open spec fn fired_essence<S>(e: Essence<S>) -> (Essence<S>, Seq<Event>) {
    choose|made: (Essence<S>, Seq<Event>)| #[trigger] fires_into(e, made.0, made.1)
}

/// What fires depends on what an engine comes down to alone.
proof fn firing_comes_down<S>(
    v: EngineView<S>,
    left: int,
    on: EngineView<S>,
    events: Seq<Event>,
    run: Run,
)
    requires
        v.wf(),
        takes_in_hand(v.audio),
        starts_steadily(v, left, on, events, run),
    ensures
        fired_essence(essence(v)) == (essence(on), events),
        on.wf(),
        takes_in_hand(on.audio),
        on == (EngineView {
            last_boundary: on.last_boundary,
            session: on.session,
            audio: on.audio,
            click: on.click,
            ..v
        }),
        on.audio.drained == v.audio.drained,
{
    let e = essence(v);
    let made = (essence(on), events);
    assert(fires_into(e, made.0, made.1));
    let other = fired_essence(e);
    assert(fires_into(e, other.0, other.1));
    let (u, l, x, r) = choose|u: EngineView<S>, l: int, x: EngineView<S>, r: Run|
        essence(u) == e && u.wf() && takes_in_hand(u.audio) && #[trigger] starts_steadily(
            u,
            l,
            x,
            other.1,
            r,
        ) && essence(x) == other.0;
    same_but_audio(v, u);
    let w = EngineView { click: v.click, ..on };
    let y = EngineView { click: u.click, ..x };
    boundary_alike(v, u, w, events, y, other.1);
    same_but_audio(w, y);
    assert(tone_at(v) == tone_at(u));
    assert(on.click == x.click);
    assert(essence(on) =~= essence(x));
}

/// What an engine comes down to so many frames on, given what it captures on the way, and what it
/// reports: at each beat and click what is due fires, and in between takes run on.
pub open spec fn future_essence<S>(e: Essence<S>, stream: Seq<S>, frames: int) -> (
    Essence<S>,
    Seq<Event>,
)
    decreases frames,
{
    let ahead = run_end(e.bare) - e.bare.position.0;
    let width = e.bare.capture_channels;
    let (on, events) = fired_essence(e);
    if frames <= 0 || ahead <= 0 {
        (e, Seq::empty())
    } else if frames <= ahead {
        (ran_essence(on, stream.take(frames * width), frames), events)
    } else {
        let rest = future_essence(
            ran_essence(on, stream.take(ahead * width), ahead),
            stream.skip(ahead * width),
            frames - ahead,
        );
        (rest.0, events + rest.1)
    }
}

/// One steady run: what is due fires, and the run is finished with what was captured.
pub open spec fn runs_steadily<S>(
    v: EngineView<S>,
    captured: Seq<S>,
    frames: int,
    w: EngineView<S>,
    events: Seq<Event>,
) -> bool {
    exists|
        left: int,
        on: EngineView<S>,
        run: Run,
        first: Seq<Event>,
        input: Seq<S>,
        offset: int,
        rest: Seq<Event>,
    |
        #![trigger starts_steadily(v, left, on, first, run), finishes_steadily(on, input, offset, frames, w, rest)]
        0 < left && starts_steadily(v, left, on, first, run) && in_good_time(on) && frames
            == run.frames && 0 <= offset && delivered(input, v.capture_channels, offset, frames)
            == captured && captured.len() == frames * v.capture_channels && finishes_steadily(
            on,
            input,
            offset,
            frames,
            w,
            rest,
        ) && events == first + rest
}

/// Steady runs in a row, of so many frames together, however they are cut, that capture the
/// frames of a stream one after the other.
pub open spec fn plays_steadily<S>(
    v: EngineView<S>,
    count: int,
    stream: Seq<S>,
    frames: int,
    w: EngineView<S>,
    events: Seq<Event>,
) -> bool
    decreases count,
{
    if count <= 0 {
        w == v && frames == 0 && events == Seq::<Event>::empty()
    } else {
        exists|mid: EngineView<S>, captured: Seq<S>, here: int, first: Seq<Event>, rest: Seq<Event>|
            #![trigger runs_steadily(v, captured, here, mid, first), first + rest]
            runs_steadily(v, captured, here, mid, first) && 0 <= here <= frames && captured
                == stream.take(here * v.capture_channels) && plays_steadily(
                mid,
                count - 1,
                stream.skip(here * v.capture_channels),
                frames - here,
                w,
                rest,
            ) && events == first + rest
    }
}

/// From the end of a run that is cut short, what is to come is what was from its beginning.
proof fn future_after_a_run<S>(
    v: EngineView<S>,
    left: int,
    on: EngineView<S>,
    first: Seq<Event>,
    run: Run,
    input: Seq<S>,
    offset: int,
    here: int,
    mid: EngineView<S>,
    last: Seq<Event>,
    stream: Seq<S>,
    frames: int,
)
    requires
        v.wf(),
        takes_in_hand(v.audio),
        0 < clicks(v),
        starts_steadily(v, left, on, first, run),
        in_good_time(on),
        0 < here <= run_end(v) - v.position.0,
        run_end(v) <= u64::MAX,
        here <= frames,
        stream.len() == frames * v.capture_channels,
        0 <= offset,
        delivered(input, v.capture_channels, offset, here) == stream.take(
            here * v.capture_channels,
        ),
        delivered(input, v.capture_channels, offset, here).len() == here * v.capture_channels,
        finishes_steadily(on, input, offset, here, mid, last),
    ensures
        ({
            let rest = future_essence(
                essence(mid),
                stream.skip(here * v.capture_channels),
                frames - here,
            );
            future_essence(essence(v), stream, frames) == (rest.0, first + rest.1)
        }),
        last == Seq::<Event>::empty(),
        mid.wf(),
        takes_in_hand(mid.audio),
        mid == (EngineView { audio: mid.audio, ..moved_on(on, here) }),
        mid.audio.drained == v.audio.drained,
        on == (EngineView {
            last_boundary: on.last_boundary,
            session: on.session,
            audio: on.audio,
            click: on.click,
            ..v
        }),
{
    let width = v.capture_channels;
    let ahead = run_end(v) - v.position.0;
    let none = Seq::<Event>::empty();
    firing_comes_down(v, left, on, first, run);
    assert(run_end(on) == run_end(v));
    assert(clicks(on) == clicks(v));
    run_comes_down(on, input, offset, here, mid, last);
    assert(run_end(essence(v).bare) == run_end(v));
    assert(first + none =~= first);
    let later = stream.skip(here * width);
    if here < frames && here < ahead {
        a_block_may_end_anywhere(on, moved_on(on, here), here);
        let one = Run { frames: 1, tone: None };
        assert(!on_new_beat(mid));
        assert(tone_at(mid) is None);
        assert(run_end(mid) == run_end(v));
        assert(starts_run(mid, 1, mid, none, one));
        assert(starts_steadily(mid, 1, mid, none, one));
        firing_comes_down(mid, 1, mid, none, one);
        assert(run_end(essence(mid).bare) == run_end(v));
        let to = if frames <= ahead {
            frames
        } else {
            ahead
        };
        let b = to - here;
        assert(0 <= here * width <= to * width <= frames * width && to * width == here * width + b
            * width) by (nonlinear_arith)
            requires
                0 <= here <= to <= frames,
                b == to - here,
                0 < width,
        ;
        let x = stream.take(here * width);
        let y = later.take(b * width);
        assert(stream.take(to * width) =~= x + y);
        assert(later.skip(b * width) =~= stream.skip(to * width));
        let e = essence(on);
        assert forall|place: int| 0 <= place < 64 implies ((
        #[trigger] e.bare.audio.recordings[place]) matches Some(recording)
            ==> recording.tail_until matches Some(until) ==> recording.frames + here + b <= until
            && recording.tail_written <= recording.frames) by {
            assert(on.audio.recordings[place] == e.bare.audio.recordings[place]);
        }
        assert(e.bare.click.played(here).played(b) == e.bare.click.played(here + b));
        runs_add_up(e, x, here, y, b);
        let rest = future_essence(essence(mid), later, frames - here);
        if frames > ahead {
            let far = future_essence(
                ran_essence(e, stream.take(ahead * width), ahead),
                stream.skip(ahead * width),
                frames - ahead,
            );
            assert(none + far.1 =~= far.1);
            assert(rest == (far.0, none + far.1));
        }
    }
}

/// Whether runs only moved the transport on and did what was due: nothing else about an engine
/// changed but its audio half.
pub open spec fn went_on<S>(v: EngineView<S>, frames: int, w: EngineView<S>) -> bool {
    &&& w == (EngineView {
        position: w.position,
        click: w.click,
        last_boundary: w.last_boundary,
        session: w.session,
        audio: w.audio,
        ..v
    })
    &&& w.position.0 == v.position.0 + frames
    &&& w.audio.drained == v.audio.drained
}

/// From the end of the first of steady runs, what is to come is what was from its beginning.
proof fn future_after_the_first<S>(
    v: EngineView<S>,
    captured: Seq<S>,
    here: int,
    mid: EngineView<S>,
    first: Seq<Event>,
    all: Seq<S>,
    total: int,
)
    requires
        v.wf(),
        takes_in_hand(v.audio),
        0 < clicks(v),
        0 <= here <= total,
        all.len() == total * v.capture_channels,
        captured == all.take(here * v.capture_channels),
        v.position.0 + total + v.grid.bar() <= u64::MAX,
        runs_steadily(v, captured, here, mid, first),
    ensures
        ({
            let rest = future_essence(
                essence(mid),
                all.skip(here * v.capture_channels),
                total - here,
            );
            future_essence(essence(v), all, total) == (rest.0, first + rest.1)
        }),
        mid.wf(),
        takes_in_hand(mid.audio),
        went_on(v, here, mid),
{
    let (left, on, run, due, input, offset, last) = choose|
        left: int,
        on: EngineView<S>,
        run: Run,
        due: Seq<Event>,
        input: Seq<S>,
        offset: int,
        last: Seq<Event>,
    |
        #![trigger starts_steadily(v, left, on, due, run), finishes_steadily(on, input, offset, here, mid, last)]
        0 < left && starts_steadily(v, left, on, due, run) && in_good_time(on) && here == run.frames
            && 0 <= offset && delivered(input, v.capture_channels, offset, here) == captured
            && captured.len() == here * v.capture_channels && finishes_steadily(
            on,
            input,
            offset,
            here,
            mid,
            last,
        ) && first == due + last;
    lines_bracket(v.grid, v.position.0 as int);
    next_cut_is_next(v.grid, v.position.0 as int, v.grid.beats(), 0);
    next_cut_is_next(v.grid, v.position.0 as int, clicks(v), 0);
    assert(0 < run_end(v) - v.position.0 <= v.grid.bar());
    future_after_a_run(
        v,
        left,
        on,
        due,
        run,
        input,
        offset,
        here,
        mid,
        last,
        all,
        total,
    );
    assert(due + last =~= due);
}

/// Streams of input are cut as the frames they hold are.
proof fn streams_cut<S>(all: Seq<S>, here: int, frames: int, total: int, width: int)
    requires
        0 < width,
        0 <= here <= frames <= total,
        all.len() == total * width,
    ensures
        all.take(frames * width).take(here * width) == all.take(here * width),
        all.take(frames * width).skip(here * width) == all.skip(here * width).take(
            (frames - here) * width,
        ),
        all.skip(here * width).skip((frames - here) * width) == all.skip(frames * width),
        all.skip(here * width).len() == (total - here) * width,
        all.take(here * width).len() == here * width,
{
    assert(0 <= here * width <= frames * width <= total * width && (total - here) * width == total
        * width - here * width && (frames - here) * width == frames * width - here * width)
        by (nonlinear_arith)
        requires
            0 <= here <= frames <= total,
            0 < width,
    ;
    assert(all.take(frames * width).take(here * width) =~= all.take(here * width));
    assert(all.take(frames * width).skip(here * width) =~= all.skip(here * width).take(
        (frames - here) * width,
    ));
    assert(all.skip(here * width).skip((frames - here) * width) =~= all.skip(frames * width));
}

/// From the end of steady runs, what is to come is what was from their beginning.
proof fn future_after_playing<S>(
    v: EngineView<S>,
    count: int,
    stream: Seq<S>,
    frames: int,
    w: EngineView<S>,
    events: Seq<Event>,
    all: Seq<S>,
    total: int,
)
    requires
        v.wf(),
        takes_in_hand(v.audio),
        0 < clicks(v),
        0 <= frames <= total,
        all.len() == total * v.capture_channels,
        stream == all.take(frames * v.capture_channels),
        v.position.0 + total + v.grid.bar() <= u64::MAX,
        plays_steadily(v, count, stream, frames, w, events),
    ensures
        ({
            let rest = future_essence(
                essence(w),
                all.skip(frames * v.capture_channels),
                total - frames,
            );
            future_essence(essence(v), all, total) == (rest.0, events + rest.1)
        }),
        w.wf(),
        takes_in_hand(w.audio),
        went_on(v, frames, w),
    decreases count,
{
    let width = v.capture_channels;
    if count <= 0 {
        assert(all.skip(0 * width) =~= all);
        let rest = future_essence(essence(w), all, total);
        assert(events + rest.1 =~= rest.1);
    } else {
        let (mid, captured, here, first, rest) = choose|
            mid: EngineView<S>,
            captured: Seq<S>,
            here: int,
            first: Seq<Event>,
            rest: Seq<Event>,
        |
            #![trigger runs_steadily(v, captured, here, mid, first), first + rest]
            runs_steadily(v, captured, here, mid, first) && 0 <= here <= frames && captured
                == stream.take(here * v.capture_channels) && plays_steadily(
                mid,
                count - 1,
                stream.skip(here * v.capture_channels),
                frames - here,
                w,
                rest,
            ) && events == first + rest;
        streams_cut(all, here, frames, total, width);
        future_after_the_first(v, captured, here, mid, first, all, total);
        future_after_playing(
            mid,
            count - 1,
            stream.skip(here * width),
            frames - here,
            w,
            rest,
            all.skip(here * width),
            total - here,
        );
        let far = future_essence(essence(w), all.skip(frames * width), total - frames);
        assert(first + (rest + far.1) =~= events + far.1);
    }
}

/// How the frames are cut into runs makes no difference, across any number of beats and with takes
/// that start, run on, end and have their tails captured on the way. What an engine comes down to
/// at the end, and everything it reports on the way, is settled by what it came down to at the
/// beginning, what it captured, and how many frames there were. That is so while nobody else is
/// found to be reading a take, none is refused or runs out of storage, and no tail is complete
/// between two beats.
pub proof fn playing_may_be_cut_anywhere<S>(
    v: EngineView<S>,
    count: int,
    stream: Seq<S>,
    frames: int,
    w: EngineView<S>,
    events: Seq<Event>,
)
    requires
        v.wf(),
        takes_in_hand(v.audio),
        0 < clicks(v),
        0 <= frames,
        stream.len() == frames * v.capture_channels,
        v.position.0 + frames + v.grid.bar() <= u64::MAX,
        plays_steadily(v, count, stream, frames, w, events),
    ensures
        (essence(w), events) == future_essence(essence(v), stream, frames),
        w.wf(),
        takes_in_hand(w.audio),
        went_on(v, frames, w),
{
    assert(stream.take(frames * v.capture_channels) =~= stream);
    future_after_playing(v, count, stream, frames, w, events, stream, frames);
    assert(events + Seq::<Event>::empty() =~= events);
}

/// A block of a running transport in which nothing comes back, arrives or was waiting, and the
/// device delivers every frame: it begins, it is played in steady runs, and the clock is reported.
/// What is reported besides the clock is what the runs report.
pub open spec fn block_plays_steadily<S>(
    v: EngineView<S>,
    stream: Seq<S>,
    frames: int,
    w: EngineView<S>,
    events: Seq<Event>,
) -> bool {
    exists|
        faded: bool,
        input_frames: int,
        begun: EngineView<S>,
        first: Seq<Event>,
        count: int,
        mid: EngineView<S>,
        last: Seq<Event>,
    |
        #![trigger begins_block(v, faded, frames, input_frames, begun, first), plays_steadily(EngineView { silenced: false, ..begun }, count, stream, frames, mid, events), reports_clock(mid, w, last)]
        begins_block(v, faded, frames, input_frames, begun, first) && frames <= input_frames
            && begun.audio.returned == v.audio.returned && begun.received == v.received
            && v.pending is None && plays_steadily(
            EngineView { silenced: false, ..begun },
            count,
            stream,
            frames,
            mid,
            events,
        ) && reports_clock(mid, w, last)
}

/// Such blocks in a row, of so many frames together.
pub open spec fn blocks_play_steadily<S>(
    v: EngineView<S>,
    count: int,
    stream: Seq<S>,
    frames: int,
    w: EngineView<S>,
    events: Seq<Event>,
) -> bool
    decreases count,
{
    if count <= 0 {
        w == v && frames == 0 && events == Seq::<Event>::empty()
    } else {
        exists|mid: EngineView<S>, captured: Seq<S>, here: int, first: Seq<Event>, rest: Seq<Event>|
            #![trigger block_plays_steadily(v, captured, here, mid, first), first + rest]
            block_plays_steadily(v, captured, here, mid, first) && 0 <= here <= frames && captured
                == stream.take(here * v.capture_channels) && blocks_play_steadily(
                mid,
                count - 1,
                stream.skip(here * v.capture_channels),
                frames - here,
                w,
                rest,
            ) && events == first + rest
    }
}

/// Settling a load forgets nothing of what was taken in, and leaves no move waiting that was not.
proof fn settling_keeps_record<S>(v: EngineView<S>, w: EngineView<S>, events: Seq<Event>)
    requires
        v.pending is None,
        settles_load(v, w, events),
    ensures
        w.received == v.received,
        w.pending is None,
{
    if load_cost(v.audio) <= v.audio.pool.capacity {
        let made = choose|made: Seq<Event>| #[trigger]
            commits(v, w, made) && events == made + changes(v.session, w.session, 64);
        let (mid, first) = choose|mid: EngineView<S>, first: Seq<Event>|
            chained(commit_step(), v, 64, mid, Seq::empty()) && #[trigger] rewinds(
                regridded_at_start(mid),
                w,
                first,
            );
        chain_keeps(
            commit_step(),
            v,
            64,
            mid,
            Seq::empty(),
            |now: EngineView<S>, i: int| now.received == v.received,
        );
    }
}

/// A block that begins with nothing come back, arrived or waiting leaves the engine what it was, but
/// for having looked.
proof fn quiet_beginning<S>(
    v: EngineView<S>,
    faded: bool,
    frames: int,
    input_frames: int,
    begun: EngineView<S>,
    events: Seq<Event>,
)
    requires
        begins_block(v, faded, frames, input_frames, begun, events),
        frames <= input_frames,
        begun.audio.returned == v.audio.returned,
        begun.received == v.received,
        v.pending is None,
    ensures
        begun == (EngineView {
            idle: v.idle + 1,
            audio: AudioView { drained: v.audio.drained + 1, ..v.audio },
            ..v
        }),
        events == Seq::<Event>::empty(),
{
    let (audio, mid, first, second) = block_steps(v, faded, frames, input_frames, begun, events);
    let from = EngineView { audio, ..v };
    let (messages, taken, complete) = choose|
        messages: Seq<LoadMessage<S>>,
        taken: AudioView<S>,
        complete: bool,
    |
        #[trigger] takes_in(from.audio, messages, taken, complete) && {
            let now = arrived(from, messages, taken);
            if complete {
                settles_load(now, mid, first)
            } else {
                mid == now && first == Seq::<Event>::empty()
            }
        };
    if complete {
        settling_keeps_record(arrived(from, messages, taken), mid, first);
    }
    assert(begun == mid);
    assert(mid.received == v.received + messages);
    assert(messages.len() == 0);
    assert(audio.returned == v.audio.returned);
    assert(came_back(v.audio, audio) =~= Seq::empty());
    assert((AudioView { drained: v.audio.drained, ..audio }) == v.audio);
    assert(from.received + messages =~= v.received);
    assert(first + second + Seq::<Event>::empty() =~= Seq::<Event>::empty());
}

/// What is counted at the end of a block is no part of what an engine comes down to.
proof fn clock_comes_down<S>(v: EngineView<S>, w: EngineView<S>, events: Seq<Event>)
    requires
        reports_clock(v, w, events),
    ensures
        essence(w) == essence(v),
        w == (EngineView { last_clock: w.last_clock, clock_total: w.clock_total, ..v }),
{
    assert(essence(w) =~= essence(v));
}

/// How the frames are cut into blocks makes no difference either: what an engine comes down to at
/// the end of such blocks, and everything it reports on the way but the clock, is what it would be
/// in one piece.
pub proof fn blocks_may_be_cut_anywhere<S>(
    v: EngineView<S>,
    count: int,
    stream: Seq<S>,
    frames: int,
    w: EngineView<S>,
    events: Seq<Event>,
)
    requires
        v.wf(),
        takes_in_hand(v.audio),
        0 < clicks(v),
        0 <= frames,
        stream.len() == frames * v.capture_channels,
        v.position.0 + frames + v.grid.bar() <= u64::MAX,
        blocks_play_steadily(v, count, stream, frames, w, events),
    ensures
        (essence(w), events) == future_essence(essence(v), stream, frames),
        w.wf(),
        takes_in_hand(w.audio),
    decreases count,
{
    if count > 0 {
        let width = v.capture_channels;
        let (next, captured, here, first, rest) = choose|
            next: EngineView<S>,
            captured: Seq<S>,
            here: int,
            first: Seq<Event>,
            rest: Seq<Event>,
        |
            #![trigger block_plays_steadily(v, captured, here, next, first), first + rest]
            block_plays_steadily(v, captured, here, next, first) && 0 <= here <= frames && captured
                == stream.take(here * v.capture_channels) && blocks_play_steadily(
                next,
                count - 1,
                stream.skip(here * v.capture_channels),
                frames - here,
                w,
                rest,
            ) && events == first + rest;
        let (faded, input_frames, begun, opening, n, mid, last) = choose|
            faded: bool,
            input_frames: int,
            begun: EngineView<S>,
            opening: Seq<Event>,
            n: int,
            mid: EngineView<S>,
            last: Seq<Event>,
        |
            #![trigger begins_block(v, faded, here, input_frames, begun, opening), plays_steadily(EngineView { silenced: false, ..begun }, n, captured, here, mid, first), reports_clock(mid, next, last)]
            begins_block(v, faded, here, input_frames, begun, opening) && here <= input_frames
                && begun.audio.returned == v.audio.returned && begun.received == v.received
                && v.pending is None && plays_steadily(
                EngineView { silenced: false, ..begun },
                n,
                captured,
                here,
                mid,
                first,
            ) && reports_clock(mid, next, last);
        quiet_beginning(v, faded, here, input_frames, begun, opening);
        let from = EngineView { silenced: false, ..begun };
        assert(bare_audio(from.audio) =~= bare_audio(v.audio));
        assert(all_heard(from.audio) =~= all_heard(v.audio));
        assert(essence(from) =~= essence(v));
        assert(from.wf());
        assert(takes_in_hand(from.audio)) by {
            assert forall|place: int| 0 <= place < 64 implies ((
            #[trigger] from.audio.recordings[place]) matches Some(recording)
                ==> !recording.starved && from.audio.clips[place] is Some && holds_through(
                from.audio.clips[place]->Some_0,
                recording.frames as int,
            )) by {
                assert(v.audio.recordings[place] == from.audio.recordings[place]);
            }
        }
        assert(0 <= here * width <= frames * width && (frames - here) * width == frames * width
            - here * width) by (nonlinear_arith)
            requires
                0 <= here <= frames,
                0 < width,
        ;
        future_after_playing(from, n, captured, here, mid, first, stream, frames);
        clock_comes_down(mid, next, last);
        let later = stream.skip(here * width);
        assert(next.wf());
        blocks_may_be_cut_anywhere(next, count - 1, later, frames - here, w, rest);
    }
}

/// Two engines that start out the same and are given the same frames are the same afterwards, up
/// to where their audio is stored, whatever blocks the frames come in: every pad does the same,
/// plays from the same place and holds the same audio, and both have reported the same but for
/// how the clock was.
pub proof fn blocks_make_no_difference<S>(
    v: EngineView<S>,
    stream: Seq<S>,
    frames: int,
    count: int,
    w: EngineView<S>,
    events: Seq<Event>,
    other: int,
    u: EngineView<S>,
    others: Seq<Event>,
    place: int,
)
    requires
        v.wf(),
        takes_in_hand(v.audio),
        0 < clicks(v),
        0 <= frames,
        stream.len() == frames * v.capture_channels,
        v.position.0 + frames + v.grid.bar() <= u64::MAX,
        blocks_play_steadily(v, count, stream, frames, w, events),
        blocks_play_steadily(v, other, stream, frames, u, others),
        0 <= place < 64,
    ensures
        events == others,
        w.position == u.position,
        w.session == u.session,
        w.click == u.click,
        w.audio.recordings == u.audio.recordings,
        w.audio.anchors == u.audio.anchors,
        w.audio.next_clip_id == u.audio.next_clip_id,
        same_clip(w.audio.clips[place], u.audio.clips[place]),
        heard(w.audio, place) == heard(u.audio, place),
        target_gain(w, SlotAddr::at(place)) == target_gain(u, SlotAddr::at(place)),
{
    blocks_may_be_cut_anywhere(v, count, stream, frames, w, events);
    blocks_may_be_cut_anywhere(v, other, stream, frames, u, others);
    same_but_audio(u, w);
    alike_but_for(u.audio, w.audio);
    alike_at(u.audio, w.audio, place);
}

/// Whether an instruction is carried out without touching audio memory or the transport.
pub open spec fn light(command: Command) -> bool {
    ||| command is Press
    ||| command is Resync
    ||| command is SetClickEnabled
    ||| command is SetClickLevel
    ||| command is SetClickSubdivision
    ||| command is SetSettings
}

/// A press, a setting or a change to the click does the same to engines that come down to the same,
/// and reports the same.
pub proof fn instructions_make_no_difference<S>(
    v: EngineView<S>,
    u: EngineView<S>,
    command: Command,
    w: EngineView<S>,
    events: Seq<Event>,
    x: EngineView<S>,
    others: Seq<Event>,
)
    requires
        essence(v) == essence(u),
        takes_in_hand(v.audio),
        light(command),
        handled(v, command, w, events),
        handled(u, command, x, others),
    ensures
        essence(w) == essence(x),
        events == others,
        takes_in_hand(w.audio),
{
    same_but_audio(v, u);
    let first = choose|first: Seq<Event>| #[trigger]
        commanded(v, command, w, first) && events == first + changes(v.session, w.session, 64);
    let second = choose|second: Seq<Event>| #[trigger]
        commanded(u, command, x, second) && others == second + changes(u.session, x.session, 64);
    assert forall|place: int| 0 <= place < 64 implies #[trigger] bare_clip(w.audio.clips[place])
        == bare_clip(x.audio.clips[place]) && heard(w.audio, place) == heard(x.audio, place) by {
        alike_at(v.audio, u.audio, place);
        assert(heard(w.audio, place) == heard(v.audio, place));
        assert(heard(x.audio, place) == heard(u.audio, place));
    }
    alike_but_for(v.audio, u.audio);
    alike_by_pads(w.audio, x.audio);
    assert(essence(w) =~= essence(x));
}

} // verus!
