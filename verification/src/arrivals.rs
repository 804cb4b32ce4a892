//! What is handed between threads arrives: the clips of a load at their pads, and retired clips
//! with whoever they belong to.

use std::sync::Arc;

use vstd::prelude::*;

use crate::audio::{abandoned, lets_go, receives, AudioView, StagedView};
use crate::chain::{chain_keeps, chained};
use crate::clip::{Clip, ClipView};
use crate::event::Event;
use crate::ids::places_are_addresses;
use crate::load::{
    clip_steps, fits, load_steps, LoadGrid, LoadMessage, Loader, QueueError, SavedClip,
};
use crate::recycle::{placing, those, Placed};
use crate::time::{Tempo, TimeSignature};
use crate::transport::{commit_step, commits, installed, takes_in, EngineView};

verus! {

/// Whether a pad has staged for it what was sent for it: the same audio, playing or not and
/// launched where it was. Only whether the storage is lent may have been marked on it.
pub open spec fn staged_for<S>(staged: Option<StagedView<S>>, sent: SavedClip<S>) -> bool {
    match staged {
        Some(staged) => {
            &&& staged.playing == sent.playing
            &&& staged.launch_anchor == sent.launch_anchor
            &&& staged.clip == (ClipView {
                borrowed: staged.clip.borrowed,
                ..sent.clip.inside()@
            })
        },
        None => false,
    }
}

/// Whether the first so many clips of a load, one to a pad, are all that is staged.
spec fn staged_so_far<S>(v: AudioView<S>, grid: LoadGrid, clips: Seq<SavedClip<S>>, to: int) -> bool {
    &&& v.receiving
    &&& v.staged_grid == Some(grid.inside())
    &&& v.staged.len() == 64
    &&& forall|i: int|
        0 <= i < to ==> staged_for(v.staged[(#[trigger] clips[i]).addr.place()], clips[i])
    &&& forall|place: int|
        0 <= place < 64 && (forall|i: int|
            0 <= i < to ==> (#[trigger] clips[i]).addr.place() != place) ==> (
        #[trigger] v.staged[place]) is None
}

/// The first steps of a load stage the first clips of it.
proof fn clips_are_staged<S>(
    v: AudioView<S>,
    grid: LoadGrid,
    clips: Seq<SavedClip<S>>,
    to: int,
    w: AudioView<S>,
)
    requires
        0 <= to <= clips.len(),
        forall|i: int| 0 <= i < clips.len() ==> (#[trigger] clips[i]).addr.wf(),
        forall|i: int, j: int|
            0 <= i < j < clips.len() ==> (#[trigger] clips[i]).addr != (#[trigger] clips[j]).addr,
        takes_in(v, load_steps(grid, clips).take(to + 1), w, false),
    ensures
        staged_so_far(w, grid, clips, to),
    decreases to,
{
    let steps = load_steps(grid, clips);
    let now = steps.take(to + 1);
    assert(now.drop_last() =~= steps.take(to));
    let (mid, alone) = choose|mid: AudioView<S>, alone: bool|
        takes_in(v, now.drop_last(), mid, false) && #[trigger] receives(
            mid,
            now.last(),
            alone,
            w,
            false,
        ) && !(now.drop_last().len() > 0 && now.drop_last().last() is End);
    if to == 0 {
        assert(now.last() == LoadMessage::<S>::Begin { grid });
        assert(w.staged == abandoned(mid).staged);
    } else {
        clips_are_staged(v, grid, clips, to - 1, mid);
        assert(now.last() == clip_steps(clips)[to - 1]);
        let here = clips[to - 1];
        places_are_addresses(here.addr, 0);
        assert forall|i: int| 0 <= i < to implies staged_for(
            w.staged[(#[trigger] clips[i]).addr.place()],
            clips[i],
        ) by {
            places_are_addresses(clips[i].addr, 0);
            if i < to - 1 {
                assert(clips[i].addr != here.addr);
                assert(clips[i].addr.place() != here.addr.place());
                assert(staged_for(mid.staged[clips[i].addr.place()], clips[i]));
            }
        }
        assert forall|place: int|
            0 <= place < 64 && (forall|i: int|
                0 <= i < to ==> (#[trigger] clips[i]).addr.place() != place) implies (
        #[trigger] w.staged[place]) is None by {
            assert(clips[to - 1].addr.place() != place);
            assert(mid.staged[place] is None);
        }
    }
}

/// A load that is sent whole, one clip to a pad, arrives whole: it is complete, on the grid it was
/// sent with, every pad has staged for it what was sent for it, and every other pad nothing.
pub proof fn a_load_arrives_as_it_was_sent<S>(
    v: AudioView<S>,
    grid: LoadGrid,
    clips: Seq<SavedClip<S>>,
    w: AudioView<S>,
    complete: bool,
)
    requires
        forall|i: int| 0 <= i < clips.len() ==> (#[trigger] clips[i]).addr.wf(),
        forall|i: int, j: int|
            0 <= i < j < clips.len() ==> (#[trigger] clips[i]).addr != (#[trigger] clips[j]).addr,
        takes_in(v, load_steps(grid, clips), w, complete),
    ensures
        complete,
        !w.receiving,
        w.staged_grid == Some(grid.inside()),
        forall|i: int|
            0 <= i < clips.len() ==> staged_for(
                w.staged[(#[trigger] clips[i]).addr.place()],
                clips[i],
            ),
        forall|place: int|
            0 <= place < 64 && (forall|i: int|
                0 <= i < clips.len() ==> (#[trigger] clips[i]).addr.place() != place) ==> (
            #[trigger] w.staged[place]) is None,
{
    let steps = load_steps(grid, clips);
    let (mid, alone) = choose|mid: AudioView<S>, alone: bool|
        takes_in(v, steps.drop_last(), mid, false) && #[trigger] receives(
            mid,
            steps.last(),
            alone,
            w,
            complete,
        ) && !(steps.drop_last().len() > 0 && steps.drop_last().last() is End);
    assert(steps.last() == LoadMessage::<S>::End);
    assert(steps.drop_last() =~= steps.take(clips.len() as int + 1));
    clips_are_staged(v, grid, clips, clips.len() as int, mid);
}

/// A retired clip goes where it belongs. None goes anywhere while somebody reads it. One that was
/// lent goes to its lender and never to the engine; any other goes back to the engine as soon as
/// there is room and never to a lender.
pub proof fn retired_clips_go_where_they_belong(borrowed: bool, alone: bool, room: bool)
    ensures
        !alone ==> placing(borrowed, alone, room) is Held,
        alone && borrowed ==> placing(borrowed, alone, room) is Lender,
        alone && !borrowed ==> (placing(borrowed, alone, room) is Back <==> room),
        !borrowed ==> !(placing(borrowed, alone, room) is Lender),
{
}

/// Nothing that somebody still reads leaves the recycler: what goes back to the engine was found to
/// have no other reader, was not lent, and had room.
pub proof fn only_unread_clips_go_back<S>(
    clips: Seq<Arc<Clip<S>>>,
    alone: Seq<bool>,
    room: Seq<bool>,
    to: int,
    k: int,
)
    requires
        0 <= to <= clips.len(),
        0 <= k < those(clips, alone, room, Placed::Back, to).len(),
    ensures
        exists|i: int|
            0 <= i < to && #[trigger] clips[i] == those(clips, alone, room, Placed::Back, to)[k]
                && alone[i] && room[i] && !clips[i]@.borrowed,
    decreases to,
{
    let all = those(clips, alone, room, Placed::Back, to);
    let rest = those(clips, alone, room, Placed::Back, to - 1);
    if k < rest.len() {
        only_unread_clips_go_back(clips, alone, room, to - 1, k);
        let i = choose|i: int|
            0 <= i < to - 1 && #[trigger] clips[i] == rest[k] && alone[i] && room[i]
                && !clips[i]@.borrowed;
        assert(clips[i] == all[k]);
    } else {
        assert(clips[to - 1] == all[k]);
    }
}

/// A session that was queued was queued whole: its musical time first, every clip of it in order,
/// and its end. Where there is no room for one, or its musical time cannot be measured, nothing
/// of it is.
pub proof fn a_session_is_queued_whole<S>(
    loader: &Loader<S>,
    room: int,
    tempo: Tempo,
    signature: TimeSignature,
    clips: Seq<SavedClip<S>>,
    after: &Loader<S>,
    r: Result<(), QueueError>,
)
    requires
        loader.queues(room, tempo, signature, clips, after, r),
    ensures
        r is Ok ==> exists|grid: LoadGrid|
            #![trigger load_steps(grid, clips)]
            grid.inside().tempo_at() == tempo && grid.inside().signature_at() == signature
                && grid.inside().rate_at() == loader.rate() && after@ == loader@ + load_steps(
                grid,
                clips,
            ),
        r == Err::<(), QueueError>(QueueError::Busy) ==> after@ == loader@,
        r is Err && r->Err_0 is Time ==> after@ == loader@,
        r == Err::<(), QueueError>(QueueError::Busy) <==> !fits(room),
{
    if r is Ok {
        let (grid, count) = choose|grid: LoadGrid, count: int|
            #![trigger load_steps(grid, clips).take(count)]
            grid.inside().rate_at() == loader.rate() && grid.inside().tempo_at() == tempo
                && grid.inside().signature_at() == signature && after@ == loader@ + load_steps(
                grid,
                clips,
            ).take(count) && if after.full() == loader.full() {
                count == clips.len() + 2 && r == Ok::<(), QueueError>(())
            } else {
                after.full() == loader.full() + 1 && after@.len() >= loader.limit() && 0 <= count
                    < clips.len() + 2 && r == Err::<(), QueueError>(QueueError::Full)
            };
        let steps = load_steps(grid, clips);
        assert(steps.take(count) =~= steps);
    }
}

/// Room for a session is room for every pad of it, its beginning and its end.
pub proof fn a_session_fits_whole(room: int)
    ensures
        fits(room) ==> room >= 64 + 2,
{
}

/// Pads before a place that something has arrived for.
pub open spec fn arrivals_before<S>(staged: Seq<Option<StagedView<S>>>, to: int) -> int
    decreases to,
{
    if to <= 0 {
        0
    } else {
        arrivals_before(staged, to - 1) + (if staged[to - 1] is Some {
            1int
        } else {
            0
        })
    }
}

/// There are never more arrivals than pads, nor fewer further on.
proof fn arrivals_add_up<S>(staged: Seq<Option<StagedView<S>>>, from: int, to: int)
    requires
        0 <= from <= to,
    ensures
        0 <= arrivals_before(staged, from) <= arrivals_before(staged, to) <= arrivals_before(
            staged,
            from,
        ) + (to - from),
        arrivals_before(staged, from) <= from,
    decreases to,
{
    if from < to {
        arrivals_add_up(staged, from, to - 1);
    } else if to > 0 {
        arrivals_add_up(staged, from - 1, to - 1);
    }
}

/// Whether the pads before a place that something arrived for are numbered in order.
spec fn numbered_so_far<S>(v: EngineView<S>, now: EngineView<S>, to: int) -> bool {
    let next = v.audio.next_clip_id.0;
    &&& now.session.len() == 64
    &&& now.audio.staged.len() == 64
    &&& now.audio.next_clip_id.0 == (next + arrivals_before(v.audio.staged, to)) % 0x1_0000_0000
    &&& forall|p: int| to <= p < 64 ==> #[trigger] now.audio.staged[p] == v.audio.staged[p]
    &&& forall|p: int|
        0 <= p < to && (#[trigger] v.audio.staged[p]) is Some ==> (now.session[p].held() matches Some(
            id,
        ) && id.0 == (next + arrivals_before(v.audio.staged, p)) % 0x1_0000_0000)
}

/// Every clip of a load has an id of its own: no two pads it arrived for share one.
pub proof fn loaded_clips_have_their_own_ids<S>(
    v: EngineView<S>,
    w: EngineView<S>,
    one: int,
    other: int,
)
    requires
        v.wf(),
        chained(commit_step(), v, 64, w, Seq::empty()),
        0 <= one < other < 64,
        v.audio.staged[one] is Some,
        v.audio.staged[other] is Some,
    ensures
        w.session[one].held() is Some,
        w.session[other].held() is Some,
        w.session[one].held() != w.session[other].held(),
{
    let step = commit_step::<S>();
    let inv = |now: EngineView<S>, i: int| numbered_so_far(v, now, i);
    assert forall|now: EngineView<S>, i: int, next: EngineView<S>, here: Seq<Event>|
        0 <= i < 64 && #[trigger] inv(now, i) && #[trigger] step(now, i, next, here) implies inv(
        next,
        i + 1,
    ) by {
        assert(now.audio.staged[i] == v.audio.staged[i]);
        arrivals_add_up(v.audio.staged, i, i);
        let (mid, alone) = choose|mid: AudioView<S>, alone: bool|
            #[trigger] lets_go(
                AudioView { recordings: now.audio.recordings.update(i, None), ..now.audio },
                i,
                alone,
                mid,
            ) && next == installed(EngineView { audio: mid, ..now }, i);
        assert(mid.staged == now.audio.staged);
        assert(mid.next_clip_id == now.audio.next_clip_id);
        assert forall|p: int|
            0 <= p < i + 1 && (#[trigger] v.audio.staged[p]) is Some implies (
        next.session[p].held() matches Some(id) && id.0 == (v.audio.next_clip_id.0
            + arrivals_before(v.audio.staged, p)) % 0x1_0000_0000) by {
            if p < i {
                assert(next.session[p] == now.session[p]);
            }
        }
    }
    chain_keeps(step, v, 64, w, Seq::empty(), inv);
    arrivals_add_up(v.audio.staged, one + 1, other);
    arrivals_add_up(v.audio.staged, one, one);
    arrivals_add_up(v.audio.staged, other, other);
}

/// A load that is put in place tells its signature first of all.
pub proof fn a_load_tells_its_signature<S>(v: EngineView<S>, w: EngineView<S>, events: Seq<Event>)
    requires
        commits(v, w, events),
        v.audio.staged_grid is Some,
    ensures
        events.len() > 0,
        events[0] == (Event::TimeSignature {
            beats_per_bar: v.audio.staged_grid->Some_0.signature_at().beats() as u32,
            beat_unit: v.audio.staged_grid->Some_0.signature_at().unit() as u32,
        }),
{
}

} // verus!
