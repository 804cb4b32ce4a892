//! What becomes of a take: where it is captured from, how long, and how it is played again.

use vstd::arithmetic::div_mod::*;
use vstd::prelude::*;

use crate::audio::{
    applied, captures, given_up, ran_on, taken_back, verdict, AudioView, Recording,
};
use crate::chain::{chain_keeps, chain_keeps_told};
use crate::clip::{mixed, partner, picked, plays, segments_needed, ClipView};
use crate::event::Event;
use crate::ids::{
    holds_place, none_held, places_are_addresses, LaunchMode, PadMask, SlotAddr, TrackInput,
};
use crate::slot::Effect;
use crate::storage::segments_in;
use crate::time::Frames;
use crate::transport::{
    capture_step, captured_run, cuts_pad, delivered, tail_settles, tail_step, tails_end, with_pad,
    Capturing, EngineView,
};

verus! {

/// Whether so many segments hold so many frames, and one less would not.
pub open spec fn just_holds(segments: int, frames: int) -> bool {
    (segments - 1) * 65_536 < frames <= segments * 65_536
}

/// Storage is counted in whole segments: as many as it takes and no more.
pub proof fn storage_is_counted_exactly(frames: int)
    requires
        0 <= frames <= 65_536 * u32::MAX,
    ensures
        just_holds(segments_needed(frames), frames),
{
}

/// What no piece of work on one pad touches: the other pads.
pub open spec fn others_untouched<S>(v: AudioView<S>, w: AudioView<S>, place: int) -> bool {
    forall|other: int|
        #![trigger w.clips[other]]
        #![trigger w.recordings[other]]
        #![trigger w.anchors[other]]
        0 <= other < 64 && other != place ==> {
            &&& w.clips[other] == v.clips[other]
            &&& w.recordings[other] == v.recordings[other]
            &&& w.anchors[other] == v.anchors[other]
        }
}

/// A take begins where there is storage for a bar and a clip to record into: it captures its own
/// track's input, from the frame it was to begin on, with nothing captured yet. Where there is
/// not, its pad is refused and nothing begins. No other pad is touched.
pub proof fn a_take_begins_or_is_refused<S>(
    v: AudioView<S>,
    addr: SlotAddr,
    at: Frames,
    alone: bool,
    w: AudioView<S>,
    events: Seq<Event>,
)
    requires
        v.wf(),
        addr.wf(),
        v.bar_frames <= u32::MAX,
        applied(v, addr, Effect::StartCapture { at }, alone, w, events),
    ensures
        events == Seq::<Event>::empty(),
        others_untouched(v, w, addr.place()),
        ({
            let spare = v.pool.free.len() - v.pool.reserved;
            let place = addr.place();
            if v.shells.len() > 0 && v.bar_frames <= spare * 65_536 {
                &&& w.refused == v.refused
                &&& w.shells.len() == v.shells.len() - 1
                &&& w.clips[place] == Some(v.shells.last())
                &&& w.recordings[place] is Some
                &&& w.recordings[place]->Some_0.started_at == at
                &&& w.recordings[place]->Some_0.input == v.inputs[addr.track.num()]
                &&& w.recordings[place]->Some_0.frames == 0
                &&& w.recordings[place]->Some_0.written == 0
                &&& w.recordings[place]->Some_0.tail_until is None
                &&& !w.recordings[place]->Some_0.starved
            } else if v.bar_frames > 0 || v.shells.len() == 0 {
                &&& holds_place(w.refused, place)
                &&& w.clips == v.clips
                &&& w.recordings == v.recordings
                &&& w.shells == v.shells
            } else {
                true
            }
        }),
        w.pool == v.pool,
        w.anchors == v.anchors,
{
    places_are_addresses(addr, 0);
    storage_is_counted_exactly(v.bar_frames as int);
    let p = addr.place() as u64;
    let refused = v.refused;
    assert((refused | (1u64 << p)) & (1u64 << p) != 0) by (bit_vector)
        requires
            p < 64,
    ;
}

/// A loop that is launched keeps time or starts over, as its track is set: following the grid it
/// plays from where it was recorded, and restarting it plays from the launch.
pub proof fn a_launch_goes_by_the_track<S>(
    v: AudioView<S>,
    addr: SlotAddr,
    effect: Effect,
    alone: bool,
    w: AudioView<S>,
    events: Seq<Event>,
)
    requires
        v.wf(),
        addr.wf(),
        effect is StartPlayback,
        applied(v, addr, effect, alone, w, events),
    ensures
        events == Seq::<Event>::empty(),
        others_untouched(v, w, addr.place()),
        w.clips == v.clips,
        w.recordings == v.recordings,
        w.anchors[addr.place()] is None <==> v.launch_modes[addr.track.num()] == LaunchMode::Follow,
        v.launch_modes[addr.track.num()] == LaunchMode::Restart && v.clips[addr.place()] is None
            ==> w.anchors[addr.place()] == Some(effect->StartPlayback_at),
{
    places_are_addresses(addr, 0);
}

/// A take that is sealed goes on capturing for as long as its tail: so many frames past its length.
/// What it has captured past its length already counts towards it.
pub proof fn a_sealed_take_captures_its_tail<S>(
    v: AudioView<S>,
    addr: SlotAddr,
    effect: Effect,
    alone: bool,
    w: AudioView<S>,
    events: Seq<Event>,
)
    requires
        v.wf(),
        addr.wf(),
        applied(v, addr, effect, alone, w, events),
        v.recordings[addr.place()] is Some,
        v.recordings[addr.place()]->Some_0.tail_until is None,
        effect matches Effect::FinishCapture { clip: _, started_at, at } && started_at.0 <= at.0
            && at.0 - started_at.0 + v.tail_frames <= u64::MAX,
    ensures
        others_untouched(v, w, addr.place()),
        w.recordings[addr.place()] is Some,
        ({
            let len = effect->FinishCapture_at.0 - effect->FinishCapture_started_at.0;
            let was = v.recordings[addr.place()]->Some_0;
            let now = w.recordings[addr.place()]->Some_0;
            &&& now.tail_until == Some((len + v.tail_frames) as u64)
            &&& now.tail_written == (if was.written > len {
                was.written - len
            } else {
                0
            })
            &&& now.frames == was.frames
            &&& now.started_at == was.started_at
            &&& now.input == was.input
        }),
{
    places_are_addresses(addr, 0);
}

/// A take goes by the transport, whether or not there is anything to store or room to store it:
/// every run counts. What storage there is for it counts towards the loop until that is sealed, and
/// towards its tail from then on.
pub proof fn a_take_runs_on<S>(
    v: AudioView<S>,
    place: int,
    captured: Seq<S>,
    src_channels: int,
    run: int,
    alone: bool,
    w: AudioView<S>,
    backed: int,
)
    requires
        v.wf(),
        0 <= place < 64,
        0 <= run,
        captures(v, place, captured, src_channels, run, alone, w, backed),
        v.recordings[place] is Some,
        v.recordings[place]->Some_0.frames + run <= u64::MAX,
        v.recordings[place]->Some_0.written <= v.recordings[place]->Some_0.frames,
        v.recordings[place]->Some_0.tail_written <= v.recordings[place]->Some_0.frames,
    ensures
        w.recordings[place] is Some,
        others_untouched(v, w, place),
        ({
            let was = v.recordings[place]->Some_0;
            let now = w.recordings[place]->Some_0;
            &&& 0 <= backed <= run
            &&& now.frames == was.frames + run
            &&& now.written + now.tail_written == was.written + was.tail_written + backed
            &&& was.tail_until is Some ==> now.written == was.written
            &&& was.tail_until is None ==> now.tail_written == was.tail_written
            &&& now.tail_until == was.tail_until
            &&& now.started_at == was.started_at
            &&& now.input == was.input
        }),
{
}

/// Storage that runs low is told once, in the run that comes up short; from then on the take has to
/// end. A tail that comes up short is told nothing of. A tail is complete as soon as the take has
/// gone on for as long as it was to.
pub proof fn storage_runs_low_once(recording: Recording, run: int, backed: int)
    requires
        0 <= backed <= run,
        recording.frames + run <= u64::MAX,
    ensures
        ({
            let made = verdict(Some(recording), run, backed);
            let after = ran_on(recording, run, backed);
            &&& made.low <==> !recording.starved && after.starved
            &&& made.out_of_room <==> recording.tail_until is None && after.starved
            &&& made.low ==> made.out_of_room && backed < run
            &&& recording.tail_until is None && backed < run ==> after.starved
            &&& recording.tail_until is Some ==> after.starved == recording.starved
            &&& made.tailed <==> (recording.tail_until is Some && after.frames
                >= recording.tail_until->Some_0)
            &&& !(made.tailed && made.out_of_room)
        }),
{
}

/// Each channel of a take is captured from the one its track's input names: the first two by turns,
/// one and the same, or the two of a pair by turns. A channel the device does not have is taken
/// from its last.
pub proof fn inputs_pick_their_channels<S>(
    src: Seq<S>,
    width: int,
    input: TrackInput,
    frame: int,
    channel: int,
)
    requires
        0 < width,
        0 <= channel,
        0 <= frame,
    ensures
        ({
            let wanted: int = match input {
                TrackInput::Stereo => channel % 2,
                TrackInput::Mono(only) => only as int,
                TrackInput::Pair(left, right) => if channel % 2 == 0 {
                    left as int
                } else {
                    right as int
                },
            };
            let from: int = if wanted < width {
                wanted
            } else {
                width - 1
            };
            picked(src, width, input.picked())(frame, channel) == src[frame * width + from]
        }),
{
    assert(channel % 1 == 0);
}

/// A loop opens from its tail for as long as its track's pickup asks and the tail reaches: the
/// frames that come in its place were captured right after the loop's end. From there on it plays
/// itself.
pub proof fn a_loop_opens_from_its_tail<S>(clip: ClipView<S>, pickup: int, phase: int)
    requires
        0 <= phase < clip.len,
        0 <= clip.tail,
        0 <= pickup,
    ensures
        clip.source(phase, clip.opening(pickup)) == (if phase < pickup && phase < clip.tail {
            clip.len + phase
        } else {
            phase
        }),
        clip.source(phase, clip.opening(0)) == phase,
{
}

/// The channels of a frame go in pairs, left and right: each has the other for its partner, and one
/// that is left over has itself.
pub proof fn channels_go_in_pairs(channel: int, channels: int)
    requires
        0 <= channel < channels,
    ensures
        0 <= partner(channel, channels) < channels,
        partner(partner(channel, channels), channels) == channel,
        partner(channel, channels) / 2 == channel / 2,
        partner(channel, channels) == channel <==> channel == channels - 1 && channels % 2 == 1,
{
}

/// Playing a loop is cut into stretches in order: a frame is in the stretch that begins at or
/// before it, so that how far it is into the stretch and where the stretch begins add up to where
/// the frame is.
pub proof fn stretches_begin_before_their_frames<S>(
    clip: ClipView<S>,
    total: int,
    done: int,
    phase: int,
    opening: int,
    frame: int,
)
    requires
        0 <= done <= frame,
    ensures
        done <= clip.run_start(total, done, phase, opening, frame) <= frame,
    decreases total - done,
{
    let run = clip.run_len(total - done, phase, opening);
    if run > 0 && frame >= done + run {
        stretches_begin_before_their_frames(
            clip,
            total,
            done + run,
            (phase + run) % clip.len,
            opening,
            frame,
        );
    }
}

/// A set of pads with one more holds that one and what it held.
proof fn one_more_pad(mask: PadMask, added: int, place: int)
    requires
        0 <= added < 64,
        0 <= place < 64,
    ensures
        holds_place(with_pad(mask, added), place) <==> holds_place(mask, place) || place == added,
{
    let p = place as u64;
    let q = added as u64;
    assert((mask | (1u64 << q)) & (1u64 << p) != 0 <==> (mask & (1u64 << p) != 0 || p == q))
        by (bit_vector)
        requires
            p < 64,
            q < 64,
    ;
}

/// A tail that is complete is given to its clip, all that was captured of it, and its recording is
/// over. The loop itself stays as it is. A clip that somebody else is found to be reading waits,
/// and so does its recording.
pub proof fn a_tail_is_given_to_its_clip<S>(
    v: AudioView<S>,
    place: int,
    alone: bool,
    w: AudioView<S>,
)
    requires
        v.wf(),
        0 <= place < 64,
        tail_settles(v, place, alone, w),
    ensures
        others_untouched(v, w, place),
        w.anchors == v.anchors,
        w.pool == v.pool,
        w.shells == v.shells,
        match (v.recordings[place], v.clips[place]) {
            (Some(recording), Some(clip)) if recording.tail_until is Some && alone => {
                &&& w.recordings[place] is None
                &&& w.clips[place] is Some
                &&& w.clips[place]->Some_0.tail == recording.tail_written
                &&& w.clips[place]->Some_0.len == clip.len
                &&& w.clips[place]->Some_0.buffer == clip.buffer
                &&& w.clips[place]->Some_0.recorded_at == clip.recorded_at
                &&& w.clips[place]->Some_0.capture_offset == clip.capture_offset
            },
            _ => w.recordings == v.recordings && w.clips == v.clips,
        },
{
}

/// What ending the complete tails made of a pad: nothing unless its tail is complete; and then its
/// clip has the tail and its recording is over, or somebody else was reading it and both wait.
pub open spec fn tail_ended<S>(
    v: AudioView<S>,
    w: AudioView<S>,
    place: int,
    complete: bool,
) -> bool {
    let waits = w.recordings[place] == v.recordings[place] && w.clips[place] == v.clips[place];
    match (v.recordings[place], v.clips[place]) {
        (Some(recording), Some(clip)) if complete && recording.tail_until is Some => waits || (
        w.recordings[place] is None && w.clips[place] == Some(
            ClipView { tail: recording.tail_written as int, ..clip },
        )),
        _ => waits,
    }
}

/// The recordings whose tail is complete end, and no other does.
pub proof fn complete_tails_end<S>(mid: Capturing<S>, audio: AudioView<S>, place: int)
    requires
        mid.audio.wf(),
        tails_end(mid, audio),
        0 <= place < 64,
    ensures
        tail_ended(mid.audio, audio, place, holds_place(mid.tailed, place)),
        audio.pool == mid.audio.pool,
        audio.anchors == mid.audio.anchors,
{
    let v = mid.audio;
    let inv = |now: AudioView<S>, i: int|
        {
            &&& now.clips.len() == 64
            &&& now.recordings.len() == 64
            &&& now.pool == v.pool
            &&& now.anchors == v.anchors
            &&& forall|p: int|
                #![trigger now.recordings[p]]
                #![trigger now.clips[p]]
                0 <= p < 64 ==> if p < i {
                    tail_ended(v, now, p, holds_place(mid.tailed, p))
                } else {
                    now.recordings[p] == v.recordings[p] && now.clips[p] == v.clips[p]
                }
        };
    let step = tail_step::<S>(mid.tailed);
    assert forall|now: AudioView<S>, i: int, next: AudioView<S>, here: Seq<Event>|
        0 <= i < 64 && #[trigger] inv(now, i) && #[trigger] step(now, i, next, here) implies inv(
        next,
        i + 1,
    ) by {
        assert(now.recordings[i] == v.recordings[i] && now.clips[i] == v.clips[i]);
        if holds_place(mid.tailed, i) {
            let alone = choose|alone: bool| tail_settles(now, i, alone, next);
            assert(tail_settles(now, i, alone, next));
        }
        assert forall|p: int|
            #![trigger next.recordings[p]]
            #![trigger next.clips[p]]
            0 <= p < 64 implies if p < i + 1 {
            tail_ended(v, next, p, holds_place(mid.tailed, p))
        } else {
            next.recordings[p] == v.recordings[p] && next.clips[p] == v.clips[p]
        } by {
            assert(now.recordings[p] == now.recordings[p]);
            if p != i {
                assert(next.recordings[p] == now.recordings[p]);
                assert(next.clips[p] == now.clips[p]);
            }
        }
    }
    chain_keeps(step, v, 64, audio, Seq::empty(), inv);
    assert(audio.recordings[place] == audio.recordings[place]);
}

/// Capturing for one pad touches no other.
proof fn capturing_touches_one<S>(
    v: AudioView<S>,
    place: int,
    captured: Seq<S>,
    src_channels: int,
    run: int,
    alone: bool,
    w: AudioView<S>,
    backed: int,
)
    requires
        v.clips.len() == 64,
        v.recordings.len() == 64,
        0 <= place < 64,
        captures(v, place, captured, src_channels, run, alone, w, backed),
    ensures
        w.clips.len() == 64,
        w.recordings.len() == 64,
        forall|p: int|
            #![trigger w.clips[p]]
            #![trigger w.recordings[p]]
            0 <= p < 64 && p != place ==> w.clips[p] == v.clips[p] && w.recordings[p]
                == v.recordings[p],
        w.recordings[place] == (match v.recordings[place] {
            Some(recording) => Some(ran_on(recording, run, backed)),
            None => None,
        }),
{
}

/// What capturing a run finds of a pad's recording: whether its tail is complete, whether it has to
/// end for want of storage, and whether that is told.
pub open spec fn found(
    before: Option<Recording>,
    after: Option<Recording>,
    run: int,
    tailed: bool,
    out: bool,
    told: bool,
) -> bool {
    match (before, after) {
        (None, after) => after is None && !tailed && !out && !told,
        (Some(before), Some(after)) => {
            &&& before.frames + run <= u64::MAX ==> after.frames == before.frames + run
            &&& before.frames + run <= u64::MAX ==> (tailed <==> (
            before.tail_until matches Some(until) && before.frames + run >= until))
            &&& out <==> before.tail_until is None && after.starved
            &&& told <==> before.tail_until is None && !before.starved && after.starved
            &&& before.starved ==> after.starved
        },
        _ => false,
    }
}

/// Capturing a run finds out, pad by pad, whose tail is complete and who has run out of storage,
/// and tells of each pad that has just done so.
pub proof fn capturing_finds_who_is_done<S>(
    v: EngineView<S>,
    input: Seq<S>,
    offset: int,
    run: int,
    mid: Capturing<S>,
    events: Seq<Event>,
    place: int,
)
    requires
        v.wf(),
        0 <= run,
        captured_run(v, input, offset, run, mid, events),
        0 <= place < 64,
    ensures
        found(
            v.audio.recordings[place],
            mid.audio.recordings[place],
            run,
            holds_place(mid.tailed, place),
            holds_place(mid.out, place),
            events.contains(Event::RecordBufferLow { addr: SlotAddr::at(place) }),
        ),
{
    let from = Capturing { audio: v.audio, tailed: 0, out: 0 };
    let step = capture_step(
        delivered(input, v.capture_channels, offset, run),
        v.capture_channels,
        run,
    );
    let inv = |now: Capturing<S>, i: int, told: Seq<Event>| done_so_far(v, run, now, i, told);
    assert forall|p: int| 0 <= p < 64 implies !(#[trigger] holds_place(0, p)) by {
        none_held(p);
    }
    assert(done_so_far(v, run, from, 0, Seq::empty()));
    assert forall|
        now: Capturing<S>,
        i: int,
        told: Seq<Event>,
        next: Capturing<S>,
        here: Seq<Event>,
    |
        0 <= i < 64 && #[trigger] inv(now, i, told) && #[trigger] step(
            now,
            i,
            next,
            here,
        ) implies inv(next, i + 1, told + here) by {
        one_pad_is_done(
            v,
            delivered(input, v.capture_channels, offset, run),
            run,
            now,
            i,
            told,
            next,
            here,
        );
    }
    chain_keeps_told(step, from, 64, mid, events, inv);
    assert(pad_done(v, run, mid, place, events));
}

/// What has been found of a pad.
spec fn pad_done<S>(
    v: EngineView<S>,
    run: int,
    now: Capturing<S>,
    place: int,
    told: Seq<Event>,
) -> bool {
    found(
        v.audio.recordings[place],
        now.audio.recordings[place],
        run,
        holds_place(now.tailed, place),
        holds_place(now.out, place),
        told.contains(Event::RecordBufferLow { addr: SlotAddr::at(place) }),
    )
}

/// What has been found of the pads before a place, and nothing of the others.
spec fn done_so_far<S>(
    v: EngineView<S>,
    run: int,
    now: Capturing<S>,
    to: int,
    told: Seq<Event>,
) -> bool {
    &&& now.audio.clips.len() == 64
    &&& now.audio.recordings.len() == 64
    &&& forall|p: int| 0 <= p < to ==> #[trigger] pad_done(v, run, now, p, told)
    &&& forall|p: int|
        to <= p < 64 ==> #[trigger] now.audio.recordings[p] == v.audio.recordings[p]
            && !holds_place(now.tailed, p) && !holds_place(now.out, p)
    &&& forall|k: int|
        0 <= k < told.len() ==> ((#[trigger] told[k]) matches Event::RecordBufferLow { addr } && 0
            <= addr.place() < to)
}

/// One more pad is looked at.
proof fn one_pad_is_done<S>(
    v: EngineView<S>,
    captured: Seq<S>,
    run: int,
    now: Capturing<S>,
    i: int,
    told: Seq<Event>,
    next: Capturing<S>,
    here: Seq<Event>,
)
    requires
        0 <= i < 64,
        0 <= run,
        done_so_far(v, run, now, i, told),
        capture_step(captured, v.capture_channels, run)(now, i, next, here),
    ensures
        done_so_far(v, run, next, i + 1, told + here),
{
    let (alone, backed) = choose|alone: bool, backed: int|
        #[trigger] captures(
            now.audio,
            i,
            captured,
            v.capture_channels,
            run,
            alone,
            next.audio,
            backed,
        ) && {
            let made = verdict(now.audio.recordings[i], run, backed);
            &&& next.tailed == (if made.tailed {
                with_pad(now.tailed, i)
            } else {
                now.tailed
            })
            &&& next.out == (if made.out_of_room {
                with_pad(now.out, i)
            } else {
                now.out
            })
            &&& here == (if made.low {
                seq![Event::RecordBufferLow { addr: SlotAddr::at(i) }]
            } else {
                Seq::<Event>::empty()
            })
        };
    capturing_touches_one(
        now.audio,
        i,
        captured,
        v.capture_channels,
        run,
        alone,
        next.audio,
        backed,
    );
    assert(now.audio.recordings[i] == v.audio.recordings[i]);
    let all = told + here;
    places_are_addresses(SlotAddr::at(i), i);
    assert forall|k: int| 0 <= k < all.len() implies ((
    #[trigger] all[k]) matches Event::RecordBufferLow { addr } && 0 <= addr.place() < i + 1) by {
        if k < told.len() {
            assert(all[k] == told[k]);
        } else {
            assert(all[k] == here[k - told.len()]);
        }
    }
    assert forall|p: int| 0 <= p < i + 1 implies #[trigger] pad_done(v, run, next, p, all) by {
        one_more_pad(now.tailed, i, p);
        one_more_pad(now.out, i, p);
        places_are_addresses(SlotAddr::at(p), p);
        let low = Event::RecordBufferLow { addr: SlotAddr::at(p) };
        if told.contains(low) {
            let k = choose|k: int| 0 <= k < told.len() && told[k] == low;
            assert(all[k] == low);
        }
        if all.contains(low) {
            let k = choose|k: int| 0 <= k < all.len() && all[k] == low;
            if k < told.len() {
                assert(told[k] == low);
                assert(told.contains(low));
            } else {
                assert(all[k] == here[k - told.len()]);
            }
        }
        if p < i {
            assert(pad_done(v, run, now, p, told));
            assert(next.audio.recordings[p] == now.audio.recordings[p]);
        } else {
            if here.len() > 0 {
                assert(all[told.len() as int] == here[0]);
            }
        }
    }
    assert forall|p: int| i + 1 <= p < 64 implies #[trigger] next.audio.recordings[p]
        == v.audio.recordings[p] && !holds_place(next.tailed, p) && !holds_place(next.out, p) by {
        one_more_pad(now.tailed, i, p);
        one_more_pad(now.out, i, p);
        assert(now.audio.recordings[p] == v.audio.recordings[p]);
    }
}

/// A take that ran out of storage keeps its whole bars: it ends on the last bar line it was stored
/// up to. One without a whole bar is let go, and its pad refused. No other pad is touched.
pub proof fn a_cut_take_keeps_its_whole_bars<S>(
    v: EngineView<S>,
    place: int,
    recording: Recording,
    w: EngineView<S>,
)
    requires
        v.wf(),
        0 <= place < 64,
        cuts_pad(v, place, recording, w),
        recording.started_at.0 + recording.written <= u64::MAX,
    ensures
        recording.written < v.grid.bar() ==> {
            &&& holds_place(w.audio.refused, place)
            &&& w.audio.clips[place] is None
            &&& w.audio.recordings[place] is None
            &&& w.session == v.session
        },
        recording.written >= v.grid.bar() && v.session[place] is Recording ==> {
            &&& w.session[place] is Recording
            &&& w.session[place]->Recording_started_at == v.session[place]->Recording_started_at
            &&& w.session[place]->ends_at is Some
            &&& (w.session[place]->ends_at->Some_0.0 - recording.started_at.0) % v.grid.bar() == 0
            &&& w.session[place]->ends_at->Some_0.0 <= recording.started_at.0 + recording.written
            &&& recording.started_at.0 + recording.written < w.session[place]->ends_at->Some_0.0
                + v.grid.bar()
            &&& w.audio == v.audio
        },
        forall|other: int|
            0 <= other < 64 && other != place ==> #[trigger] w.session[other] == v.session[other],
{
    let bar = v.grid.bar();
    let written = recording.written as int;
    let bars = written / bar;
    lemma_fundamental_div_mod(written, bar);
    lemma_mod_bound(written, bar);
    lemma_mod_multiples_basic(bars, bar);
    assert(bar * bars == bars * bar) by (nonlinear_arith);
    if written < bar {
        lemma_basic_div(written, bar);
        one_more_pad(v.audio.refused, place, place);
    } else {
        assert(bars >= 1) by (nonlinear_arith)
            requires
                written == bar * bars + written % bar,
                written % bar < bar,
                written >= bar,
                bar > 0,
        ;
    }
}

/// What the device delivered for a run is what it delivered from the run's first frame on: every
/// frame of it, as far as there is any.
pub proof fn a_run_gets_its_own_input<S>(
    input: Seq<S>,
    channels: int,
    offset: int,
    run: int,
    frame: int,
    channel: int,
)
    requires
        0 < channels,
        0 <= offset,
        0 <= run,
        0 <= frame,
        0 <= channel < channels,
    ensures
        ({
            let got = delivered(input, channels, offset, run);
            let whole = input.len() as int / channels;
            let count = if whole <= offset {
                0
            } else if whole - offset < run {
                whole - offset
            } else {
                run
            };
            &&& got.len() == count * channels
            &&& frame < count ==> got[frame * channels + channel] == input[(offset + frame)
                * channels + channel]
        }),
{
    let whole = input.len() as int / channels;
    lemma_fundamental_div_mod(input.len() as int, channels);
    lemma_mod_bound(input.len() as int, channels);
    assert(channels * whole == whole * channels) by (nonlinear_arith);
    let count = if whole <= offset {
        0
    } else if whole - offset < run {
        whole - offset
    } else {
        run
    };
    assert(0 * channels == 0);
    if whole > offset {
        let end = offset + count;
        assert(0 <= offset * channels <= end * channels <= whole * channels && end * channels
            - offset * channels == count * channels) by (nonlinear_arith)
            requires
                0 <= offset <= end <= whole,
                0 < channels,
                count == end - offset,
        ;
        if frame < count {
            assert((offset + frame) * channels + channel == offset * channels + (frame * channels
                + channel) && 0 <= frame * channels + channel < count * channels)
                by (nonlinear_arith)
                requires
                    0 <= frame < count,
                    0 <= channel < channels,
            ;
        }
    }
}

/// Letting a clip go is told, with which clip it was, and its pad holds none any more. Discarding a
/// take is not told of, and leaves neither a recording nor a clip. Stopping touches no audio.
pub proof fn letting_go_is_told<S>(
    v: AudioView<S>,
    addr: SlotAddr,
    effect: Effect,
    alone: bool,
    w: AudioView<S>,
    events: Seq<Event>,
)
    requires
        v.wf(),
        addr.wf(),
        applied(v, addr, effect, alone, w, events),
    ensures
        effect matches Effect::ReleaseClip { clip } ==> events == seq![Event::ClipReleased { clip }]
            && w.clips[addr.place()] is None && others_untouched(v, w, addr.place()),
        effect is CancelCapture ==> events == Seq::<Event>::empty() && w.clips[addr.place()] is None
            && w.recordings[addr.place()] is None && others_untouched(v, w, addr.place()),
        effect is StopPlayback ==> w == v && events == Seq::<Event>::empty(),
{
    places_are_addresses(addr, 0);
}

/// Whether a sample is what mixing makes of it, at a frame of a block: the function is handed a
/// start and how far past it the frame is, the channel, the sample before, and the stored sample
/// with the other one of its pair.
pub open spec fn mixes_at<S, F: Fn(usize, usize, usize, S, S, S) -> S>(
    mix: F,
    start: int,
    frame: int,
    channel: int,
    before: S,
    stored: (S, S),
    after: S,
) -> bool {
    call_ensures(
        mix,
        (
            start as usize,
            (frame - start) as usize,
            channel as usize,
            before,
            stored.0,
            stored.1,
        ),
        after,
    )
}

/// Whether a sample of a block is what a stored frame makes of it: mixed with the frame's own
/// channel, with the other of its pair at hand, or left as it is where nothing is stored.
pub open spec fn sounds_at<S, F: Fn(usize, usize, usize, S, S, S) -> S>(
    clip: ClipView<S>,
    from: int,
    mix: F,
    frame: int,
    channel: int,
    before: S,
    after: S,
) -> bool {
    match clip.buffer.at(from, channel) {
        Some(own) => exists|start: int|
            0 <= start <= frame && #[trigger] mixes_at(
                mix,
                start,
                frame,
                channel,
                before,
                (own, clip.buffer.read(from, partner(channel, clip.channels))),
                after,
            ),
        None => after == before,
    }
}

/// A loop plays what was recorded, where it belongs. Every frame of a block that it is played into
/// is mixed with the frame of the loop that falls on it, counted from where the loop is anchored
/// and round and round: from the tail while the loop opens from it, and from the loop itself from
/// there on. Where nothing is stored the block stays as it is.
pub proof fn a_loop_plays_what_was_recorded<S, F: Fn(usize, usize, usize, S, S, S) -> S>(
    clip: ClipView<S>,
    anchor: int,
    position: int,
    pickup: int,
    mix: F,
    before: Seq<S>,
    after: Seq<S>,
    frame: int,
    channel: int,
)
    requires
        plays(clip, anchor, position, pickup, mix, before, after),
        0 < clip.channels,
        0 < clip.len,
        0 <= clip.tail,
        0 <= pickup,
        clip.buffer.channels == clip.channels,
        0 <= frame < before.len() as int / clip.channels,
        0 <= channel < clip.channels,
        frame <= usize::MAX,
    ensures
        ({
            let phase = (position + frame - anchor) % clip.len;
            let from = if phase < pickup && phase < clip.tail {
                clip.len + phase
            } else {
                phase
            };
            let at = frame * clip.channels + channel;
            sounds_at(clip, from, mix, frame, channel, before[at], after[at])
        }),
        after.len() == before.len(),
{
    let total = before.len() as int / clip.channels;
    let opening = clip.opening(pickup);
    let start = clip.phase(anchor, position);
    let phase = (start + frame) % clip.len;
    lemma_mod_bound(start + frame, clip.len);
    lemma_add_mod_noop_right(frame, position - anchor, clip.len);
    assert(start + frame == frame + (position - anchor) % clip.len);
    assert(frame + (position - anchor) == position + frame - anchor);
    assert(phase == (position + frame - anchor) % clip.len);
    a_loop_opens_from_its_tail(clip, pickup, phase);
    stretches_begin_before_their_frames(clip, total, 0, start, opening, frame);
    let begins = clip.run_start(total, 0, start, opening, frame);
    let at = frame * clip.channels + channel;
    let from = clip.source(phase, opening);
    assert(mixed(clip.buffer, mix, from, begins, frame, channel, before[at], after[at]));
    if let Some(own) = clip.buffer.at(from, channel) {
        assert(mixes_at(
            mix,
            begins,
            frame,
            channel,
            before[at],
            (own, clip.buffer.read(from, partner(channel, clip.channels))),
            after[at],
        ));
    }
    assert(sounds_at(clip, from, mix, frame, channel, before[at], after[at]));
}

/// Whether a clip is blank: nothing of what it was is left on it.
pub open spec fn is_blank<S>(clip: ClipView<S>) -> bool {
    &&& clip.len == 0
    &&& clip.tail == 0
    &&& clip.recorded_at == 0
    &&& clip.capture_offset == 0
    &&& !clip.borrowed
    &&& forall|i: int|
        0 <= i < clip.buffer.chunks.len() ==> (#[trigger] clip.buffer.chunks[i]) is None
}

/// A clip that is let go while nobody reads it comes back blank to be recorded into, and its
/// storage is free again, all of it. One that was lent, that there is no place for, or that
/// somebody reads is handed over as it is.
pub proof fn a_clip_let_go_comes_back_blank<S>(v: AudioView<S>, clip: ClipView<S>, alone: bool)
    ensures
        ({
            let w = given_up(v, clip, alone);
            let kept = !clip.borrowed && v.shells.len() < 64 && clip.channels == v.pool.channels;
            &&& kept && alone ==> {
                &&& w.shells.len() == v.shells.len() + 1
                &&& is_blank(w.shells.last())
                &&& w.pool.free.len() == v.pool.free.len() + segments_in(clip)
                &&& w.retired == v.retired
            }
            &&& !kept || !alone ==> {
                &&& w.retired == v.retired.push(clip)
                &&& w.shells == v.shells
                &&& w.pool == v.pool
            }
            &&& w.clips == v.clips
            &&& w.recordings == v.recordings
            &&& w.pool.reserved == v.pool.reserved
            &&& w.pool.capacity == v.pool.capacity
        }),
{
}

/// A clip that comes back from the recycler is blank again and its storage free. One of another
/// width was never the pools' and goes out again; one that somebody reads after all is let drop.
pub proof fn a_clip_that_comes_back_is_blank<S>(v: AudioView<S>, clip: ClipView<S>, alone: bool)
    requires
        !clip.borrowed,
    ensures
        ({
            let w = taken_back(v, clip, alone);
            let fits = clip.channels == v.pool.channels;
            &&& w.returned == v.returned.push(clip)
            &&& fits && alone ==> is_blank(w.shells.last()) && w.shells.len() == v.shells.len() + 1
                && w.pool.free.len() == v.pool.free.len() + segments_in(clip) && w.retired
                == v.retired
            &&& !fits ==> w.retired == v.retired.push(clip)
            &&& fits && !alone ==> w.retired == v.retired
            &&& !fits || !alone ==> w.pool == v.pool && w.shells == v.shells
            &&& w.clips == v.clips
            &&& w.recordings == v.recordings
        }),
{
}

} // verus!
