//! The pads and the audio behind them agree, whatever the engine does.

use vstd::prelude::*;

use crate::audio::{
    applied, captures, reclaiming_keeps_settings, verdict, worked, AudioView,
};
use crate::chain::{chain_keeps, chained};
use crate::command::Command;
use crate::event::Event;
use crate::ids::{holds_place, none_held, or_bit, places_are_addresses, PadMask, SlotAddr};
use crate::load::LoadMessage;
use crate::promises::{addressed, an_arriving_load_touches_no_pad, block_steps, moves};
use crate::session::{always, cancelling, moved, retargeted, swept, tagged, Work};
use crate::slot::{advanced, cleared, stepped, Ctx, Effect, SlotInput, SlotState};
use crate::time::Frames;
use crate::transport::{
    advances, arrived, beat_report, begins_block, cancels, capture_step, captured_run, changes,
    clears, clips_rewound, clock_at, commanded, commit_step, commits, completion, cut_step,
    cuts_short, delivered, finishes_run, handled, load_cost, on_new_beat, performs, publish_step,
    publishes_pad, reaches_boundary, refusal_step, refusals_settle,
    regridded_at_start, rewinds, session_moves, settles_load, snapshots, starts_run, tail_settles,
    tail_step, tails_end, takes_in, with_pad, Capturing, Deferred, EngineView, Publishing, Run,
};

verus! {

/// Whether a pad in a state has audio behind it: a take in progress or a clip.
pub open spec fn keeps_audio(state: SlotState) -> bool {
    state is Recording || state.held() is Some
}

/// Whether a pad's capture is still of the take itself, not of what follows it.
pub open spec fn taking<S>(v: AudioView<S>, place: int) -> bool {
    v.recordings[place] matches Some(recording) && recording.tail_until is None
}

/// Whether a pad and the audio behind it agree: it has a clip exactly where its state says so,
/// and a take is captured only for a pad that is recording. A pad that was refused storage is
/// recording with nothing behind it, until it is put back.
pub open spec fn in_step<S>(v: AudioView<S>, state: SlotState, place: int) -> bool {
    &&& taking(v, place) ==> state is Recording
    &&& if holds_place(v.refused, place) {
        state is Recording && v.clips[place] is None
    } else {
        v.clips[place] is Some <==> keeps_audio(state)
    }
}

/// Whether every pad agrees with the audio behind it.
pub open spec fn agrees<S>(v: EngineView<S>) -> bool {
    forall|place: int| 0 <= place < 64 ==> in_step(v.audio, #[trigger] v.session[place], place)
}

/// Whether work on other pads left a pad alone.
spec fn left_alone<S>(v: AudioView<S>, w: AudioView<S>, place: int) -> bool {
    &&& w.clips[place] == v.clips[place]
    &&& w.recordings[place] == v.recordings[place]
    &&& holds_place(w.refused, place) == holds_place(v.refused, place)
}

/// There is an entry for every pad.
spec fn sized<S>(v: AudioView<S>) -> bool {
    v.clips.len() == 64 && v.recordings.len() == 64 && v.anchors.len() == 64
}

/// One piece of work touches its own pad alone. A take that begins gives the pad a clip or has
/// it refused, and whatever lets a clip go leaves the pad without one.
proof fn one_effect<S>(
    v: AudioView<S>,
    addr: SlotAddr,
    effect: Effect,
    alone: bool,
    w: AudioView<S>,
    events: Seq<Event>,
)
    requires
        sized(v),
        addr.wf(),
        applied(v, addr, effect, alone, w, events),
    ensures
        sized(w),
        forall|q: int| 0 <= q < 64 && q != addr.place() ==> #[trigger] left_alone(v, w, q),
        ({
            let p = addr.place();
            match effect {
                Effect::StartCapture { .. } => {
                    ||| w.clips[p] is Some && w.refused == v.refused
                    ||| w.clips[p] == v.clips[p] && holds_place(w.refused, p) && taking(w, p)
                        == taking(v, p)
                },
                Effect::FinishCapture { .. } => !taking(w, p) && w.refused == v.refused
                    && w.clips[p] is Some == v.clips[p] is Some,
                Effect::CancelCapture => !taking(w, p) && w.refused == v.refused
                    && w.clips[p] is None,
                Effect::ReleaseClip { .. } => taking(w, p) == taking(v, p) && w.refused
                    == v.refused && w.clips[p] is None,
                _ => left_alone(v, w, p) && w.refused == v.refused,
            }
        }),
{
    places_are_addresses(addr, 0);
    or_bit(v.refused, addr.place() as u64);
    assert forall|q: int| 0 <= q < 64 && q != addr.place() implies #[trigger] left_alone(
        v,
        w,
        q,
    ) by {
        if effect is StartCapture {
            assert(holds_place(v.refused | (1u64 << (addr.place() as u64)), q) == holds_place(
                v.refused,
                q,
            ));
        }
    }
    if effect is StartCapture {
        assert(holds_place(v.refused | (1u64 << (addr.place() as u64)), addr.place()));
    }
}

/// Work in two parts is the first part, then the second.
proof fn work_in_two<S>(
    v: AudioView<S>,
    a: Work,
    b: Work,
    w: AudioView<S>,
    events: Seq<Event>,
) -> (mid: (AudioView<S>, int))
    requires
        worked(v, a + b, w, events),
    ensures
        0 <= mid.1 <= events.len(),
        worked(v, a, mid.0, events.take(mid.1)),
        worked(mid.0, b, w, events.skip(mid.1)),
    decreases b.len(),
{
    let all = a + b;
    if b.len() == 0 {
        assert(all =~= a);
        assert(events.take(events.len() as int) =~= events);
        assert(events.skip(events.len() as int) =~= Seq::<Event>::empty());
        (w, events.len() as int)
    } else {
        let (before, count, alone) = choose|before: AudioView<S>, count: int, alone: bool|
            #![trigger applied(before, all.last().0, all.last().1, alone, w, events.skip(count))]
            0 <= count <= events.len() && worked(v, all.drop_last(), before, events.take(count))
                && applied(before, all.last().0, all.last().1, alone, w, events.skip(count));
        assert(all.drop_last() =~= a + b.drop_last());
        let (mid, n) = work_in_two(v, a, b.drop_last(), before, events.take(count));
        assert(events.take(count).take(n) =~= events.take(n));
        assert(events.take(count).skip(n) =~= events.skip(n).take(count - n));
        assert(events.skip(n).skip(count - n) =~= events.skip(count));
        assert(applied(
            before,
            b.last().0,
            b.last().1,
            alone,
            w,
            events.skip(n).skip(count - n),
        ));
        (mid, n)
    }
}

/// One piece of work is the work itself.
proof fn work_of_one<S>(
    v: AudioView<S>,
    addr: SlotAddr,
    effect: Effect,
    w: AudioView<S>,
    events: Seq<Event>,
) -> (alone: bool)
    requires
        worked(v, seq![(addr, effect)], w, events),
    ensures
        applied(v, addr, effect, alone, w, events),
{
    let work = seq![(addr, effect)];
    let (mid, count, alone) = choose|mid: AudioView<S>, count: int, alone: bool|
        #![trigger applied(mid, work.last().0, work.last().1, alone, w, events.skip(count))]
        0 <= count <= events.len() && worked(v, work.drop_last(), mid, events.take(count))
            && applied(mid, work.last().0, work.last().1, alone, w, events.skip(count));
    assert(work.drop_last().len() == 0);
    assert(events.take(count) == Seq::<Event>::empty());
    assert(count == 0) by {
        assert(events.take(count).len() == count);
    }
    assert(events.skip(0) =~= events);
    alone
}

/// What a pad's own work does to the audio behind it keeps the two in step.
proof fn pad_keeps_step<S>(
    v: AudioView<S>,
    place: int,
    state: SlotState,
    input: SlotInput,
    ctx: Ctx,
    w: AudioView<S>,
    events: Seq<Event>,
)
    requires
        sized(v),
        0 <= place < 64,
        in_step(v, state, place),
        !holds_place(v.refused, place),
        input is Advance || input is Stop || input is Clear,
        worked(v, tagged(SlotAddr::at(place), stepped(state, input, ctx).1), w, events),
    ensures
        sized(w),
        in_step(w, stepped(state, input, ctx).0, place),
        !(input is Advance) ==> w.refused == v.refused,
        forall|q: int| 0 <= q < 64 && q != place ==> #[trigger] left_alone(v, w, q),
{
    let addr = SlotAddr::at(place);
    places_are_addresses(addr, place);
    let effects = stepped(state, input, ctx).1;
    let work = tagged(addr, effects);
    assert(effects.len() <= 2);
    if effects.len() == 0 {
        assert(work =~= Seq::<(SlotAddr, Effect)>::empty());
    } else if effects.len() == 1 {
        assert(work =~= seq![(addr, effects[0])]);
        let alone = work_of_one(v, addr, effects[0], w, events);
        one_effect(v, addr, effects[0], alone, w, events);
    } else {
        let a = seq![(addr, effects[0])];
        let b = seq![(addr, effects[1])];
        assert(work =~= a + b);
        let (mid, n) = work_in_two(v, a, b, w, events);
        let first = work_of_one(v, addr, effects[0], mid, events.take(n));
        let second = work_of_one(mid, addr, effects[1], w, events.skip(n));
        one_effect(v, addr, effects[0], first, mid, events.take(n));
        one_effect(mid, addr, effects[1], second, w, events.skip(n));
        assert forall|q: int| 0 <= q < 64 && q != place implies #[trigger] left_alone(v, w, q) by {
            assert(left_alone(v, mid, q) && left_alone(mid, w, q));
        }
    }
}

/// Giving pads an input each, in order, keeps every one of them in step.
proof fn sweep_keeps_step<S>(
    v: AudioView<S>,
    states: Seq<SlotState>,
    inputs: spec_fn(SlotState) -> Option<SlotInput>,
    ctx: Ctx,
    from: int,
    to: int,
    w: AudioView<S>,
    events: Seq<Event>,
)
    requires
        sized(v),
        states.len() == 64,
        0 <= from <= to <= 64,
        forall|p: int| 0 <= p < 64 ==> in_step(v, #[trigger] states[p], p),
        forall|p: int| from <= p < 64 ==> !(#[trigger] holds_place(v.refused, p)),
        forall|s: SlotState|
            (#[trigger] inputs(s)) matches Some(input) ==> input is Advance || input is Stop
                || input is Clear,
        worked(v, swept(states, inputs, ctx, from, to), w, events),
    ensures
        sized(w),
        forall|p: int|
            0 <= p < 64 ==> in_step(w, #[trigger] moved(states, inputs, ctx, from, to)[p], p),
        forall|p: int| to <= p < 64 ==> !(#[trigger] holds_place(w.refused, p)),
        (forall|s: SlotState| !((#[trigger] inputs(s)) matches Some(SlotInput::Advance)))
            ==> w.refused == v.refused,
    decreases to - from,
{
    let after = moved(states, inputs, ctx, from, to);
    if to == from {
        assert(after =~= states);
    } else {
        let place = to - 1;
        let earlier = swept(states, inputs, ctx, from, place);
        let halfway = moved(states, inputs, ctx, from, place);
        match inputs(states[place]) {
            None => {
                sweep_keeps_step(v, states, inputs, ctx, from, place, w, events);
                assert(after =~= halfway);
            },
            Some(input) => {
                let own = tagged(SlotAddr::at(place), stepped(states[place], input, ctx).1);
                let (mid, n) = work_in_two(v, earlier, own, w, events);
                sweep_keeps_step(v, states, inputs, ctx, from, place, mid, events.take(n));
                assert(halfway[place] == states[place]);
                pad_keeps_step(mid, place, states[place], input, ctx, w, events.skip(n));
                assert forall|p: int| 0 <= p < 64 implies in_step(w, #[trigger] after[p], p) by {
                    if p != place {
                        assert(left_alone(mid, w, p));
                        assert(in_step(mid, halfway[p], p));
                        assert(after[p] == halfway[p]);
                    }
                }
                assert forall|p: int| to <= p < 64 implies !(#[trigger] holds_place(
                    w.refused,
                    p,
                )) by {
                    assert(left_alone(mid, w, p));
                }
            },
        }
    }
}

/// Work carried out for pads that move keeps them in step.
proof fn moving_keeps_step<S>(
    v: EngineView<S>,
    inputs: spec_fn(SlotState) -> Option<SlotInput>,
    from: int,
    to: int,
    states: Seq<SlotState>,
    w: EngineView<S>,
    events: Seq<Event>,
)
    requires
        sized(v.audio),
        v.session.len() == 64,
        agrees(v),
        v.audio.refused == 0,
        0 <= from <= to <= 64,
        forall|s: SlotState|
            (#[trigger] inputs(s)) matches Some(input) ==> input is Advance || input is Stop
                || input is Clear,
        states == moved(v.session, inputs, v.moment(), from, to),
        session_moves(v, states, swept(v.session, inputs, v.moment(), from, to), w, events),
    ensures
        sized(w.audio),
        w.session.len() == 64,
        agrees(w),
        (forall|s: SlotState| !((#[trigger] inputs(s)) matches Some(SlotInput::Advance)))
            ==> w.audio.refused == 0,
{
    assert forall|p: int| 0 <= p < 64 implies !(#[trigger] holds_place(v.audio.refused, p)) by {
        none_held(p);
    }
    sweep_keeps_step(
        v.audio,
        v.session,
        inputs,
        v.moment(),
        from,
        to,
        w.audio,
        events,
    );
}

/// Everything that agrees, with no refusal left over and an entry for every pad.
spec fn sound<S>(v: EngineView<S>) -> bool {
    agrees(v) && sized(v.audio) && v.session.len() == 64 && v.audio.refused == 0
}

/// A pad emptied on its own.
proof fn clearing_one<S>(v: EngineView<S>, place: int, w: EngineView<S>, events: Seq<Event>)
    requires
        sized(v.audio),
        v.session.len() == 64,
        0 <= place < 64,
        !holds_place(v.audio.refused, place),
        in_step(v.audio, v.session[place], place),
        session_moves(
            v,
            v.session.update(place, SlotState::Empty),
            tagged(SlotAddr::at(place), cleared(v.session[place], v.position)),
            w,
            events,
        ),
    ensures
        sized(w.audio),
        w.audio.refused == v.audio.refused,
        in_step(w.audio, SlotState::Empty, place),
        forall|q: int| 0 <= q < 64 && q != place ==> #[trigger] left_alone(v.audio, w.audio, q),
{
    pad_keeps_step(
        v.audio,
        place,
        v.session[place],
        SlotInput::Clear,
        v.moment(),
        w.audio,
        events,
    );
}

/// How far putting refused pads back has come.
spec fn putting_back<S>(v: EngineView<S>, refused: PadMask, to: int) -> bool {
    &&& sized(v.audio)
    &&& v.session.len() == 64
    &&& v.audio.refused == 0
    &&& forall|p: int|
        0 <= p < 64 ==> if to <= p && holds_place(refused, p) {
            v.session[p] is Recording && v.audio.clips[p] is None
        } else {
            (v.audio.clips[p] is Some <==> keeps_audio(#[trigger] v.session[p]))
        } && (taking(v.audio, p) ==> v.session[p] is Recording)
}

/// Putting refused pads back leaves every pad in step.
proof fn settling_keeps_step<S>(v: EngineView<S>, w: EngineView<S>, events: Seq<Event>)
    requires
        agrees(v),
        sized(v.audio),
        v.session.len() == 64,
        refusals_settle(v, w, events),
    ensures
        sound(w),
{
    let refused = v.audio.refused;
    let from = EngineView { audio: AudioView { refused: 0, ..v.audio }, ..v };
    let step = refusal_step::<S>(refused);
    assert(putting_back(from, refused, 0)) by {
        assert forall|p: int| 0 <= p < 64 implies in_step(v.audio, #[trigger] v.session[p], p) by {}
    }
    assert forall|now: EngineView<S>, i: int, next: EngineView<S>, here: Seq<Event>|
        0 <= i < 64 && #[trigger] putting_back(now, refused, i) && #[trigger] step(
            now,
            i,
            next,
            here,
        ) implies putting_back(next, refused, i + 1) by {
        none_held(i);
        if holds_place(refused, i) {
            let first = choose|first: Seq<Event>|
                #[trigger] session_moves(
                    now,
                    now.session.update(i, SlotState::Empty),
                    tagged(SlotAddr::at(i), cleared(now.session[i], now.position)),
                    next,
                    first,
                ) && here == first.push(Event::RecordingRefused { addr: SlotAddr::at(i) });
            clearing_refused(now, i, next, first);
            assert forall|p: int| 0 <= p < 64 implies if i + 1 <= p && holds_place(refused, p) {
                next.session[p] is Recording && next.audio.clips[p] is None
            } else {
                (next.audio.clips[p] is Some <==> keeps_audio(#[trigger] next.session[p]))
            } && (taking(next.audio, p) ==> next.session[p] is Recording) by {
                if p != i {
                    assert(left_alone(now.audio, next.audio, p));
                    assert(next.session[p] == now.session[p]);
                }
            }
        }
    }
    chain_keeps(
        step,
        from,
        64,
        w,
        events,
        |now: EngineView<S>, i: int| putting_back(now, refused, i),
    );
    assert forall|p: int| 0 <= p < 64 implies in_step(w.audio, #[trigger] w.session[p], p) by {
        none_held(p);
    }
}

/// A pad that was refused is emptied: it has nothing behind it to let go.
proof fn clearing_refused<S>(v: EngineView<S>, place: int, w: EngineView<S>, events: Seq<Event>)
    requires
        sized(v.audio),
        v.session.len() == 64,
        0 <= place < 64,
        v.audio.refused == 0,
        v.session[place] is Recording,
        session_moves(
            v,
            v.session.update(place, SlotState::Empty),
            tagged(SlotAddr::at(place), cleared(v.session[place], v.position)),
            w,
            events,
        ),
    ensures
        sized(w.audio),
        w.audio.refused == 0,
        w.audio.clips[place] is None,
        !taking(w.audio, place),
        forall|q: int| 0 <= q < 64 && q != place ==> #[trigger] left_alone(v.audio, w.audio, q),
{
    let addr = SlotAddr::at(place);
    places_are_addresses(addr, place);
    let work = tagged(addr, cleared(v.session[place], v.position));
    assert(work =~= seq![(addr, Effect::CancelCapture)]);
    let alone = work_of_one(v.audio, addr, Effect::CancelCapture, w.audio, events);
    one_effect(v.audio, addr, Effect::CancelCapture, alone, w.audio, events);
}

/// Discarding every take keeps the pads in step.
proof fn cancelling_keeps_step<S>(v: EngineView<S>, w: EngineView<S>, events: Seq<Event>)
    requires
        sound(v),
        cancels(v, w, events),
    ensures
        sound(w),
{
    moving_keeps_step(
        v,
        cancelling(),
        0,
        64,
        moved(v.session, cancelling(), v.moment(), 0, 64),
        w,
        events,
    );
}

/// Going back to the start keeps the pads in step.
proof fn rewinding_keeps_step<S>(v: EngineView<S>, w: EngineView<S>, events: Seq<Event>)
    requires
        sound(v),
        rewinds(v, w, events),
    ensures
        sound(w),
{
    let (mid, alone) = choose|mid: EngineView<S>, alone: Seq<bool>|
        #![trigger cancels(v, mid, events), clips_rewound(mid.audio, w.session, alone, w.audio)]
        cancels(v, mid, events) && w == (EngineView {
            position: Frames(0),
            last_boundary: None,
            last_clock: clock_at(v.grid, 0),
            session: mid.session.map_values(|state: SlotState| retargeted(state, Frames(0))),
            audio: w.audio,
            ..mid
        }) && clips_rewound(mid.audio, w.session, alone, w.audio);
    cancelling_keeps_step(v, mid, events);
    assert forall|p: int| 0 <= p < 64 implies in_step(w.audio, #[trigger] w.session[p], p) by {
        assert(in_step(mid.audio, mid.session[p], p));
        assert(w.session[p] == retargeted(mid.session[p], Frames(0)));
        assert((w.audio.clips[p] is Some) == (mid.audio.clips[p] is Some));
    }
}

/// Emptying every pad keeps them in step.
proof fn clearing_keeps_step<S>(v: EngineView<S>, w: EngineView<S>, events: Seq<Event>)
    requires
        sound(v),
        clears(v, w, events),
    ensures
        sound(w),
{
    let (mid, first, second) = choose|mid: EngineView<S>, first: Seq<Event>, second: Seq<Event>|
        session_moves(
            v,
            Seq::new(64, |i: int| SlotState::Empty),
            swept(v.session, always(SlotInput::Clear), v.moment(), 0, 64),
            mid,
            first,
        ) && #[trigger] rewinds(mid, w, second) && events == #[trigger] (first + second);
    let states = moved(v.session, always(SlotInput::Clear), v.moment(), 0, 64);
    assert(states =~= Seq::new(64, |i: int| SlotState::Empty));
    moving_keeps_step(v, always(SlotInput::Clear), 0, 64, states, mid, first);
    rewinding_keeps_step(mid, w, second);
}

/// A move whose fade has finished keeps the pads in step.
proof fn performing_keeps_step<S>(
    v: EngineView<S>,
    action: Deferred,
    w: EngineView<S>,
    events: Seq<Event>,
)
    requires
        sound(v),
        performs(v, action, w, events),
    ensures
        sound(w),
{
    let moved = EngineView { silenced: v.silenced, ..w };
    match action {
        Deferred::Rewind => rewinding_keeps_step(v, moved, events),
        Deferred::ClearAll => clearing_keeps_step(v, moved, events),
        Deferred::Pause => {
            let paused = EngineView { paused: true, ..v };
            assert(sound(paused));
            cancelling_keeps_step(paused, moved, events);
        },
    }
    assert(forall|p: int| 0 <= p < 64 ==> w.session[p] == #[trigger] moved.session[p]);
}

/// Publishing the pads keeps them in step.
proof fn publishing_keeps_step<S>(
    v: EngineView<S>,
    request: u32,
    w: EngineView<S>,
    events: Seq<Event>,
)
    requires
        sound(v),
        snapshots(v, request, w, events),
    ensures
        sound(w),
{
    let (published, expected) = choose|published: int, expected: int|
        w == (EngineView { audio: w.audio, ..v }) && chained(
            publish_step(request, v.session),
            Publishing { audio: v.audio, published: 0, expected: 0 },
            64,
            Publishing { audio: w.audio, published, expected },
            Seq::empty(),
        ) && events == #[trigger] completion(request, published, expected);
    let step = publish_step(request, v.session);
    assert forall|now: Publishing<S>, i: int, next: Publishing<S>, here: Seq<Event>|
        0 <= i < 64 && #[trigger] tails_only(v.audio, now.audio) && #[trigger] step(
            now,
            i,
            next,
            here,
        ) implies tails_only(v.audio, next.audio) by {
        let (mid, alone) = choose|mid: AudioView<S>, alone: bool|
            #[trigger] tail_settles(now.audio, i, alone, mid) && publishes_pad(
                Publishing { audio: mid, ..now },
                request,
                v.session,
                i,
                next,
            );
        tail_settling(v.audio, now.audio, i, alone, mid);
        assert(next.audio.clips == mid.clips);
        assert(next.audio.recordings == mid.recordings);
        assert forall|p: int| 0 <= p < 64 implies #[trigger] same_presence(
            v.audio,
            next.audio,
            p,
        ) by {
            assert(same_presence(v.audio, mid, p));
        }
    }
    let inv = |now: Publishing<S>, i: int| tails_only(v.audio, now.audio);
    chain_keeps(
        step,
        Publishing { audio: v.audio, published: 0, expected: 0 },
        64,
        Publishing { audio: w.audio, published, expected },
        Seq::empty(),
        inv,
    );
    assert forall|p: int| 0 <= p < 64 implies in_step(w.audio, #[trigger] w.session[p], p) by {
        assert(in_step(v.audio, v.session[p], p));
        assert(same_presence(v.audio, w.audio, p));
    }
}

/// Whether a pad has audio behind it as before, and no take is captured that was not.
spec fn same_presence<S>(v: AudioView<S>, w: AudioView<S>, place: int) -> bool {
    (w.clips[place] is Some) == (v.clips[place] is Some) && (taking(w, place) ==> taking(v, place))
}

/// Whether nothing but the end of what follows a take changed about the pads.
spec fn tails_only<S>(v: AudioView<S>, w: AudioView<S>) -> bool {
    &&& sized(w)
    &&& w.refused == v.refused
    &&& forall|p: int| 0 <= p < 64 ==> #[trigger] same_presence(v, w, p)
}

proof fn tail_settling<S>(
    v: AudioView<S>,
    now: AudioView<S>,
    place: int,
    alone: bool,
    next: AudioView<S>,
)
    requires
        tails_only(v, now),
        0 <= place < 64,
        tail_settles(now, place, alone, next),
    ensures
        tails_only(v, next),
        forall|p: int|
            0 <= p < 64 && #[trigger] taking(now, p) ==> taking(next, p) || p == place
                && now.recordings[place]->Some_0.tail_until is Some,
{
    assert forall|p: int| 0 <= p < 64 implies #[trigger] same_presence(v, next, p) by {
        assert(same_presence(v, now, p));
    }
}

/// Obeying an instruction keeps the pads in step.
proof fn handling_keeps_step<S>(
    v: EngineView<S>,
    command: Command,
    w: EngineView<S>,
    events: Seq<Event>,
)
    requires
        sound(v),
        command matches Command::Press(addr) ==> addr.wf(),
        command matches Command::Clear(addr) ==> addr.wf(),
        command matches Command::StopTrack(track) ==> track.wf(),
        commanded(v, command, w, events),
    ensures
        sound(w),
{
    match command {
        Command::Press(addr) => {
            assert forall|p: int| 0 <= p < 64 implies in_step(
                w.audio,
                #[trigger] w.session[p],
                p,
            ) by {
                none_held(p);
                assert(in_step(v.audio, v.session[p], p));
            }
        },
        Command::Clear(addr) => {
            places_are_addresses(addr, addr.place());
            none_held(addr.place());
            clearing_one(v, addr.place(), w, events);
            assert forall|p: int| 0 <= p < 64 implies in_step(
                w.audio,
                #[trigger] w.session[p],
                p,
            ) by {
                if p != addr.place() {
                    assert(left_alone(v.audio, w.audio, p));
                    assert(in_step(v.audio, v.session[p], p));
                }
            }
        },
        Command::StopTrack(track) => {
            let from = track.num() * 8;
            let states = moved(v.session, always(SlotInput::Stop), v.moment(), from, from + 8);
            assert(states =~= w.session);
            moving_keeps_step(
                v,
                always(SlotInput::Stop),
                from,
                from + 8,
                states,
                w,
                events,
            );
        },
        Command::StopAll => {
            let states = moved(v.session, always(SlotInput::Stop), v.moment(), 0, 64);
            assert(states =~= w.session);
            moving_keeps_step(v, always(SlotInput::Stop), 0, 64, states, w, events);
        },
        Command::ClearAll => {
            if v.declick == 0 {
                performing_keeps_step(v, Deferred::ClearAll, w, events);
            }
        },
        Command::Rewind => {
            if v.declick == 0 {
                performing_keeps_step(v, Deferred::Rewind, w, events);
            }
        },
        Command::SetPaused(paused) => {
            if v.declick == 0 && paused && !v.paused && v.pending != Some(Deferred::Pause) {
                performing_keeps_step(v, Deferred::Pause, w, events);
            }
        },
        Command::Snapshot { request } => {
            publishing_keeps_step(v, request, w, events);
        },
        _ => {
            assert(w.session == v.session);
            assert forall|p: int| 0 <= p < 64 implies in_step(
                w.audio,
                #[trigger] w.session[p],
                p,
            ) by {
                assert(in_step(v.audio, v.session[p], p));
            }
        },
    }
}

/// Reaching a boundary keeps the pads in step.
proof fn reaching_keeps_step<S>(v: EngineView<S>, w: EngineView<S>, events: Seq<Event>)
    requires
        sound(v),
        reaches_boundary(v, w, events),
    ensures
        sound(w),
{
    if on_new_beat(v) {
        let (mid, first, second) = choose|mid: EngineView<S>, first: Seq<Event>, second: Seq<Event>|
            #[trigger] advances(v, mid, first) && #[trigger] refusals_settle(mid, w, second)
                && events == beat_report(v.grid, v.position.0 as int) + first + second + changes(
                v.session,
                w.session,
                64,
            );
        let from = EngineView { last_boundary: Some(v.position), ..v };
        assert(agrees(from));
        let states = moved(v.session, always(SlotInput::Advance), v.moment(), 0, 64);
        assert(states =~= v.session.map_values(
            |state: SlotState| advanced(state, v.moment()).0,
        ));
        moving_keeps_step(from, always(SlotInput::Advance), 0, 64, states, mid, first);
        settling_keeps_step(mid, w, second);
    }
}

/// How far capturing a run has come: the takes that ran out are still takes.
spec fn capturing_ok<S>(v: AudioView<S>, now: Capturing<S>) -> bool {
    &&& tails_only(v, now.audio)
    &&& forall|p: int| 0 <= p < 64 && #[trigger] holds_place(now.out, p) ==> taking(now.audio, p)
}

/// How far ending recordings has come: takes that are still takes are left alone.
spec fn takes_kept<S>(v: AudioView<S>, from: AudioView<S>, now: AudioView<S>) -> bool {
    &&& tails_only(v, now)
    &&& forall|p: int| 0 <= p < 64 && #[trigger] taking(from, p) ==> taking(now, p)
}

/// How far ending the takes that ran out of storage has come.
spec fn cutting<S>(v: EngineView<S>, out: PadMask, to: int) -> bool {
    &&& agrees(v)
    &&& sized(v.audio)
    &&& v.session.len() == 64
    &&& forall|p: int| to <= p < 64 ==> !(#[trigger] holds_place(v.audio.refused, p))
    &&& forall|p: int| to <= p < 64 && #[trigger] holds_place(out, p) ==> taking(v.audio, p)
}

/// Finishing a run keeps the pads in step.
proof fn finishing_keeps_step<S>(
    v: EngineView<S>,
    input: Seq<S>,
    offset: int,
    run: int,
    w: EngineView<S>,
    events: Seq<Event>,
)
    requires
        sound(v),
        finishes_run(v, input, offset, run, w, events),
    ensures
        sound(w),
{
    let (mid, audio, first, second) = choose|
        mid: Capturing<S>,
        audio: AudioView<S>,
        first: Seq<Event>,
        second: Seq<Event>,
    |
        #![trigger captured_run(v, input, offset, run, mid, first), tails_end(mid, audio), first + second]
        captured_run(v, input, offset, run, mid, first) && tails_end(mid, audio) && cuts_short(
            EngineView { audio, ..v },
            mid.out,
            EngineView { click: v.click, position: v.position, ..w },
            second,
        ) && events == first + second && w.click == v.click.played(run) && w.position == Frames(
            (v.position.0 + run) as u64,
        );
    capturing_keeps_step(v, input, offset, run, mid, first);
    let ends = tail_step::<S>(mid.tailed);
    assert forall|now: AudioView<S>, i: int, next: AudioView<S>, here: Seq<Event>|
        0 <= i < 64 && #[trigger] takes_kept(v.audio, mid.audio, now) && #[trigger] ends(
            now,
            i,
            next,
            here,
        ) implies takes_kept(v.audio, mid.audio, next) by {
        if holds_place(mid.tailed, i) {
            let alone = choose|alone: bool| tail_settles(now, i, alone, next);
            tail_settling(v.audio, now, i, alone, next);
        }
    }
    chain_keeps(
        ends,
        mid.audio,
        64,
        audio,
        Seq::empty(),
        |now: AudioView<S>, i: int| takes_kept(v.audio, mid.audio, now),
    );
    let from = EngineView { audio, ..v };
    assert forall|p: int| 0 <= p < 64 implies in_step(from.audio, #[trigger] from.session[p], p) by {
        assert(in_step(v.audio, v.session[p], p));
        assert(same_presence(v.audio, audio, p));
    }
    let end = EngineView { click: v.click, position: v.position, ..w };
    assert forall|p: int| 0 <= p < 64 implies !(#[trigger] holds_place(from.audio.refused, p)) by {
        none_held(p);
    }
    assert forall|p: int| 0 <= p < 64 && #[trigger] holds_place(mid.out, p) implies taking(
        audio,
        p,
    ) by {
        assert(taking(mid.audio, p));
    }
    cutting_keeps_step(from, mid.out, end, second);
    assert(forall|p: int| 0 <= p < 64 ==> w.session[p] == #[trigger] end.session[p]);
}

/// Capturing a run gives no pad a clip and takes none away.
proof fn capturing_keeps_step<S>(
    v: EngineView<S>,
    input: Seq<S>,
    offset: int,
    run: int,
    mid: Capturing<S>,
    events: Seq<Event>,
)
    requires
        sound(v),
        captured_run(v, input, offset, run, mid, events),
    ensures
        capturing_ok(v.audio, mid),
{
    let captured = delivered(input, v.capture_channels, offset, run);
    let step = capture_step(captured, v.capture_channels, run);
    let from = Capturing { audio: v.audio, tailed: 0, out: 0 };
    assert(capturing_ok(v.audio, from)) by {
        assert forall|p: int| 0 <= p < 64 && #[trigger] holds_place(0, p) implies taking(
            v.audio,
            p,
        ) by {
            none_held(p);
        }
    }
    assert forall|now: Capturing<S>, i: int, next: Capturing<S>, here: Seq<Event>|
        0 <= i < 64 && #[trigger] capturing_ok(v.audio, now) && #[trigger] step(
            now,
            i,
            next,
            here,
        ) implies capturing_ok(v.audio, next) by {
        let (alone, backed) = choose|alone: bool, backed: int|
            #[trigger] captures(
                now.audio,
                i,
                captured,
                v.capture_channels,
                run,
                alone,
                next.audio,
                backed,
            ) && {
                let made = verdict(now.audio.recordings[i], run, backed);
                &&& next.tailed == (if made.tailed {
                    with_pad(now.tailed, i)
                } else {
                    now.tailed
                })
                &&& next.out == (if made.out_of_room {
                    with_pad(now.out, i)
                } else {
                    now.out
                })
                &&& here == (if made.low {
                    seq![Event::RecordBufferLow { addr: SlotAddr::at(i) }]
                } else {
                    Seq::<Event>::empty()
                })
            };
        or_bit(now.out, i as u64);
        assert forall|p: int| 0 <= p < 64 implies #[trigger] same_presence(
            v.audio,
            next.audio,
            p,
        ) by {
            assert(same_presence(v.audio, now.audio, p));
        }
        assert forall|p: int| 0 <= p < 64 && #[trigger] holds_place(next.out, p) implies taking(
            next.audio,
            p,
        ) by {
            if p == i {
                assert(holds_place(now.out, i) ==> taking(now.audio, i));
            } else {
                assert(holds_place(now.out, p));
                assert(taking(now.audio, p));
            }
        }
    }
    chain_keeps(
        step,
        from,
        64,
        mid,
        events,
        |now: Capturing<S>, i: int| capturing_ok(v.audio, now),
    );
}

/// Ending the takes that ran out of storage keeps the pads in step.
proof fn cutting_keeps_step<S>(v: EngineView<S>, out: PadMask, w: EngineView<S>, events: Seq<Event>)
    requires
        cutting(v, out, 0),
        v.audio.refused == 0,
        cuts_short(v, out, w, events),
    ensures
        sound(w),
{
    if out != 0 {
        let (mid, first) = choose|mid: EngineView<S>, first: Seq<Event>|
            chained(cut_step(out), v, 64, mid, Seq::empty()) && #[trigger] refusals_settle(
                mid,
                w,
                first,
            ) && events == first + changes(v.session, w.session, 64);
        let step = cut_step::<S>(out);
        assert forall|now: EngineView<S>, i: int, next: EngineView<S>, here: Seq<Event>|
            0 <= i < 64 && #[trigger] cutting(now, out, i) && #[trigger] step(
                now,
                i,
                next,
                here,
            ) implies cutting(next, out, i + 1) by {
            or_bit(now.audio.refused, i as u64);
            assert(in_step(now.audio, now.session[i], i));
            assert forall|p: int| 0 <= p < 64 implies in_step(
                next.audio,
                #[trigger] next.session[p],
                p,
            ) by {
                assert(in_step(now.audio, now.session[p], p));
                assert(holds_place(out, i) ==> taking(now.audio, i));
            }
            assert forall|p: int| i + 1 <= p < 64 implies !(#[trigger] holds_place(
                next.audio.refused,
                p,
            )) by {
                assert(!holds_place(now.audio.refused, p));
            }
            assert forall|p: int| i + 1 <= p < 64 && #[trigger] holds_place(
                out,
                p,
            ) implies taking(next.audio, p) by {
                assert(taking(now.audio, p));
            }
        }
        chain_keeps(
            step,
            v,
            64,
            mid,
            Seq::empty(),
            |now: EngineView<S>, i: int| cutting(now, out, i),
        );
        settling_keeps_step(mid, w, first);
    }
}

/// How far putting a load in place has come.
spec fn installing<S>(v: EngineView<S>, to: int) -> bool {
    &&& sized(v.audio)
    &&& v.session.len() == 64
    &&& v.audio.refused == 0
    &&& agrees(v)
}

/// Putting a load in place keeps the pads in step.
proof fn committing_keeps_step<S>(v: EngineView<S>, w: EngineView<S>, events: Seq<Event>)
    requires
        sound(v),
        commits(v, w, events),
    ensures
        sound(w),
{
    let (mid, first) = choose|mid: EngineView<S>, first: Seq<Event>|
        chained(commit_step(), v, 64, mid, Seq::empty()) && #[trigger] rewinds(
            regridded_at_start(mid),
            w,
            first,
        );
    let step = commit_step::<S>();
    assert forall|now: EngineView<S>, i: int, next: EngineView<S>, here: Seq<Event>|
        0 <= i < 64 && #[trigger] installing(now, i) && #[trigger] step(
            now,
            i,
            next,
            here,
        ) implies installing(next, i + 1) by {
        assert forall|p: int| 0 <= p < 64 implies in_step(
            next.audio,
            #[trigger] next.session[p],
            p,
        ) by {
            none_held(p);
            assert(in_step(now.audio, now.session[p], p));
        }
    }
    chain_keeps(step, v, 64, mid, Seq::empty(), |now: EngineView<S>, i: int| installing(now, i));
    let from = regridded_at_start(mid);
    assert forall|p: int| 0 <= p < 64 implies in_step(from.audio, #[trigger] from.session[p], p) by {
        assert(in_step(mid.audio, mid.session[p], p));
    }
    rewinding_keeps_step(from, w, first);
}

/// Beginning a block keeps the pads in step.
proof fn beginning_keeps_step<S>(
    v: EngineView<S>,
    faded: bool,
    frames: int,
    input_frames: int,
    w: EngineView<S>,
    events: Seq<Event>,
)
    requires
        sound(v),
        begins_block(v, faded, frames, input_frames, w, events),
    ensures
        sound(w),
{
    let (audio, mid, first, second) = block_steps(
        v,
        faded,
        frames,
        input_frames,
        w,
        events,
    );
    reclaiming_keeps_settings(v.audio, audio);
    let from = EngineView { audio, ..v };
    let (messages, taken, complete) = choose|
        messages: Seq<LoadMessage<S>>,
        taken: AudioView<S>,
        complete: bool,
    |
        #[trigger] takes_in(from.audio, messages, taken, complete) && {
            let begun = arrived(from, messages, taken);
            if complete {
                settles_load(begun, mid, first)
            } else {
                mid == begun && first == Seq::<Event>::empty()
            }
        };
    an_arriving_load_touches_no_pad(audio, messages, taken, complete);
    let begun = arrived(from, messages, taken);
    assert forall|p: int| 0 <= p < 64 implies in_step(
        begun.audio,
        #[trigger] begun.session[p],
        p,
    ) by {
        assert(in_step(v.audio, v.session[p], p));
    }
    if complete {
        if load_cost(taken) <= taken.pool.capacity {
            let made = choose|made: Seq<Event>| #[trigger]
                commits(begun, mid, made) && first == made + changes(
                    begun.session,
                    mid.session,
                    64,
                );
            committing_keeps_step(begun, mid, made);
        } else {
            assert forall|p: int| 0 <= p < 64 implies in_step(
                mid.audio,
                #[trigger] mid.session[p],
                p,
            ) by {
                assert(in_step(begun.audio, begun.session[p], p));
            }
        }
    }
    match mid.pending {
        Some(action) if faded => {
            let made = choose|made: Seq<Event>|
                #[trigger] performs(EngineView { pending: None, ..mid }, action, w, made) && second
                    == made + changes(mid.session, w.session, 64);
            let cleared = EngineView { pending: None, ..mid };
            assert(forall|p: int| 0 <= p < 64 ==> #[trigger] cleared.session[p] == mid.session[p]);
            assert(sound(cleared));
            performing_keeps_step(cleared, action, w, made);
        },
        _ => {},
    }
}

/// The pads and the audio behind them agree whatever the engine does: a pad has a clip exactly
/// while it records or holds one, and a take is captured only for a pad that is recording. So a
/// pad that sounds always has something to sound, and a take never begins over a clip.
pub proof fn pads_and_audio_agree<S>(v: EngineView<S>, w: EngineView<S>, events: Seq<Event>)
    requires
        v.wf(),
        agrees(v),
        moves(v, w, events),
    ensures
        agrees(w),
{
    assert(sound(v));
    if exists|command: Command| addressed(command) && #[trigger] handled(v, command, w, events) {
        let command = choose|command: Command|
            addressed(command) && #[trigger] handled(v, command, w, events);
        let first = choose|first: Seq<Event>| #[trigger]
            commanded(v, command, w, first) && events == first + changes(v.session, w.session, 64);
        handling_keeps_step(v, command, w, first);
    } else if exists|faded: bool, frames: int, input_frames: int| #[trigger]
        begins_block(v, faded, frames, input_frames, w, events) {
        let (faded, frames, input_frames) = choose|faded: bool, frames: int, input_frames: int|
            #[trigger] begins_block(v, faded, frames, input_frames, w, events);
        beginning_keeps_step(v, faded, frames, input_frames, w, events);
    } else if exists|left: int, run: Run| #[trigger] starts_run(v, left, w, events, run) {
        let (left, run) = choose|left: int, run: Run| #[trigger]
            starts_run(v, left, w, events, run);
        let mid = EngineView { click: v.click, ..w };
        reaching_keeps_step(v, mid, events);
        assert(forall|p: int| 0 <= p < 64 ==> #[trigger] w.session[p] == mid.session[p]);
    } else if exists|input: Seq<S>, offset: int, run: int|
        v.position.0 + run <= u64::MAX && 0 <= run && #[trigger] finishes_run(
            v,
            input,
            offset,
            run,
            w,
            events,
        ) {
        let (input, offset, run) = choose|input: Seq<S>, offset: int, run: int|
            v.position.0 + run <= u64::MAX && 0 <= run && #[trigger] finishes_run(
                v,
                input,
                offset,
                run,
                w,
                events,
            );
        finishing_keeps_step(v, input, offset, run, w, events);
    } else {
        assert(forall|p: int| 0 <= p < 64 ==> #[trigger] w.session[p] == v.session[p]);
    }
}

/// An engine that holds nothing starts with every pad in step.
pub proof fn empty_pads_agree<S>(v: EngineView<S>)
    requires
        v.audio.refused == 0,
        forall|place: int| 0 <= place < 64 ==> (#[trigger] v.session[place]) is Empty,
        forall|place: int| 0 <= place < 64 ==> (#[trigger] v.audio.clips[place]) is None,
        forall|place: int| 0 <= place < 64 ==> (#[trigger] v.audio.recordings[place]) is None,
    ensures
        agrees(v),
{
    assert forall|place: int| 0 <= place < 64 implies in_step(
        v.audio,
        #[trigger] v.session[place],
        place,
    ) by {
        none_held(place);
    }
}

} // verus!
