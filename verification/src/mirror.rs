//! The surface mirrors the engine: whatever the engine does to the pads, what it reports tells.

use vstd::prelude::*;

use crate::audio::{applied, worked, AudioView};
use crate::chain::{chain_keeps, chain_keeps_told, chained};
use crate::command::Command;
use crate::control::ControllerView;
use crate::device::Nanos;
use crate::event::Event;
use crate::ids::{holds_place, places_are_addresses, SlotAddr};
use crate::load::LoadMessage;
use crate::looping::informed;
use crate::promises::{addressed, block_steps, moves};
use crate::session::{always, cancelling, retargeted, swept, tagged};
use crate::slot::{cleared, Effect, SlotInput, SlotState};
use crate::time::Frames;
use crate::transport::{
    advances, applies_loads, arrived, beat_report, begins_block, cancels, capture_step,
    captured_run, changes, clips_rewound, commanded, commit_step, commits, cut_step, cuts_short, delivered,
    every_state, finishes_run, handled, load_cost, on_new_beat, performs, reaches_boundary,
    refusal_step, refusals_settle, regridded_at_start, reports_clock, rewinds, session_moves,
    settles_load, signature_report, starts_run, tails_end, takes_in, Capturing, Deferred,
    EngineView, Run,
};

verus! {

/// What a picture of the pads becomes as reports of them are taken in.
pub open spec fn mirrored(session: Seq<SlotState>, events: Seq<Event>) -> Seq<SlotState>
    decreases events.len(),
{
    if events.len() == 0 {
        session
    } else {
        let before = mirrored(session, events.drop_last());
        match events.last() {
            Event::SlotChanged { addr, state } => before.update(addr.place(), state),
            _ => before,
        }
    }
}

/// Whether no pad is reported.
pub open spec fn tells_no_pad(events: Seq<Event>) -> bool {
    forall|i: int| 0 <= i < events.len() ==> !((#[trigger] events[i]) is SlotChanged)
}

/// A controller takes in the reports of the pads, and nothing else changes its picture of them.
proof fn surfaces_mirror(v: ControllerView, events: Seq<Event>, now: Nanos, to: int)
    requires
        0 <= to <= events.len(),
    ensures
        informed(v, events, now, to).session == mirrored(v.session, events.take(to)),
    decreases to,
{
    if to > 0 {
        surfaces_mirror(v, events, now, to - 1);
        assert(events.take(to).drop_last() =~= events.take(to - 1));
        assert(events.take(to).last() == events[to - 1]);
    } else {
        assert(events.take(0) =~= Seq::empty());
    }
}

/// Reports in a row are taken in one after the other.
proof fn mirrored_adds(session: Seq<SlotState>, first: Seq<Event>, second: Seq<Event>)
    ensures
        mirrored(session, first + second) == mirrored(mirrored(session, first), second),
    decreases second.len(),
{
    let all = first + second;
    if second.len() == 0 {
        assert(all =~= first);
    } else {
        assert(all.drop_last() =~= first + second.drop_last());
        assert(all.last() == second.last());
        mirrored_adds(session, first, second.drop_last());
    }
}

/// Reports of anything else change nothing about the pads.
proof fn mirrored_none(session: Seq<SlotState>, events: Seq<Event>)
    requires
        tells_no_pad(events),
    ensures
        mirrored(session, events) == session,
    decreases events.len(),
{
    if events.len() > 0 {
        let rest = events.drop_last();
        assert forall|i: int| 0 <= i < rest.len() implies !((#[trigger] rest[i]) is SlotChanged) by {
            assert(rest[i] == events[i]);
        }
        mirrored_none(session, rest);
        assert(!(events[events.len() - 1] is SlotChanged));
    }
}

/// Two lots of reports without a pad are one.
proof fn no_pads_add(first: Seq<Event>, second: Seq<Event>)
    requires
        tells_no_pad(first),
        tells_no_pad(second),
    ensures
        tells_no_pad(first + second),
{
    let all = first + second;
    assert forall|i: int| 0 <= i < all.len() implies !((#[trigger] all[i]) is SlotChanged) by {
        if i < first.len() {
            assert(all[i] == first[i]);
        } else {
            assert(all[i] == second[i - first.len()]);
        }
    }
}

/// Taking in every change gives what they lead to.
proof fn mirrored_changes(before: Seq<SlotState>, after: Seq<SlotState>, to: int)
    requires
        before.len() == 64,
        after.len() == 64,
        0 <= to <= 64,
    ensures
        mirrored(before, changes(before, after, to)) == Seq::new(
            64,
            |p: int|
                if p < to {
                    after[p]
                } else {
                    before[p]
                },
        ),
    decreases to,
{
    let all = changes(before, after, to);
    let now = mirrored(before, all);
    let made = Seq::new(
        64,
        |p: int|
            if p < to {
                after[p]
            } else {
                before[p]
            },
    );
    if to > 0 {
        mirrored_changes(before, after, to - 1);
        places_are_addresses(SlotAddr::at(to - 1), to - 1);
        let rest = changes(before, after, to - 1);
        if before[to - 1] != after[to - 1] {
            assert(all.drop_last() =~= rest);
        }
    }
    assert(now =~= made);
}

/// Taking in every change there is gives what they lead to.
proof fn mirrored_all(before: Seq<SlotState>, after: Seq<SlotState>)
    requires
        before.len() == 64,
        after.len() == 64,
    ensures
        mirrored(before, changes(before, after, 64)) == after,
{
    mirrored_changes(before, after, 64);
    assert(mirrored(before, changes(before, after, 64)) =~= after);
}

/// Taking in the state of every pad gives the states, whatever was there.
proof fn mirrored_states(session: Seq<SlotState>, states: Seq<SlotState>, to: int)
    requires
        session.len() == 64,
        states.len() == 64,
        0 <= to <= 64,
    ensures
        mirrored(session, every_state(states).take(to)).len() == 64,
        forall|p: int|
            0 <= p < to ==> #[trigger] mirrored(session, every_state(states).take(to))[p]
                == states[p],
    decreases to,
{
    let all = every_state(states);
    if to > 0 {
        mirrored_states(session, states, to - 1);
        assert(all.take(to).drop_last() =~= all.take(to - 1));
        assert(all.take(to).last() == all[to - 1]);
        places_are_addresses(SlotAddr::at(to - 1), to - 1);
    } else {
        assert(all.take(0) =~= Seq::empty());
    }
}

/// Work on the audio reports no pad.
proof fn work_tells_no_pad<S>(
    v: AudioView<S>,
    work: Seq<(SlotAddr, Effect)>,
    w: AudioView<S>,
    events: Seq<Event>,
)
    requires
        worked(v, work, w, events),
    ensures
        tells_no_pad(events),
    decreases work.len(),
{
    if work.len() > 0 {
        let (mid, count, alone) = choose|mid: AudioView<S>, count: int, alone: bool|
            #![trigger applied(mid, work.last().0, work.last().1, alone, w, events.skip(count))]
            0 <= count <= events.len() && worked(v, work.drop_last(), mid, events.take(count))
                && applied(mid, work.last().0, work.last().1, alone, w, events.skip(count));
        let first = events.take(count);
        let second = events.skip(count);
        assert(events =~= first + second);
        assert(tells_no_pad(second));
        work_tells_no_pad(v, work.drop_last(), mid, first);
        no_pads_add(first, second);
    }
}

proof fn rewinding_tells_no_pad<S>(v: EngineView<S>, w: EngineView<S>, events: Seq<Event>)
    requires
        rewinds(v, w, events),
    ensures
        tells_no_pad(events),
        w.session.len() == v.session.len(),
{
    let (mid, alone) = choose|mid: EngineView<S>, alone: Seq<bool>|
        #![trigger cancels(v, mid, events), clips_rewound(mid.audio, w.session, alone, w.audio)]
        cancels(v, mid, events) && w.session == mid.session.map_values(
            |state: SlotState| retargeted(state, Frames(0)),
        ) && clips_rewound(mid.audio, w.session, alone, w.audio);
    work_tells_no_pad(
        v.audio,
        swept(v.session, cancelling(), v.moment(), 0, 64),
        mid.audio,
        events,
    );
}

proof fn performing_tells_no_pad<S>(
    v: EngineView<S>,
    action: Deferred,
    w: EngineView<S>,
    events: Seq<Event>,
)
    requires
        v.session.len() == 64,
        performs(v, action, w, events),
    ensures
        tells_no_pad(events),
        w.session.len() == 64,
{
    let moved = EngineView { silenced: v.silenced, ..w };
    match action {
        Deferred::Rewind => rewinding_tells_no_pad(v, moved, events),
        Deferred::ClearAll => {
            let (mid, first, second) = choose|
                mid: EngineView<S>,
                first: Seq<Event>,
                second: Seq<Event>,
            |
                session_moves(
                    v,
                    Seq::new(64, |i: int| SlotState::Empty),
                    swept(v.session, always(SlotInput::Clear), v.moment(), 0, 64),
                    mid,
                    first,
                ) && #[trigger] rewinds(mid, moved, second) && events == #[trigger] (first
                    + second);
            work_tells_no_pad(
                v.audio,
                swept(v.session, always(SlotInput::Clear), v.moment(), 0, 64),
                mid.audio,
                first,
            );
            rewinding_tells_no_pad(mid, moved, second);
            no_pads_add(first, second);
        },
        Deferred::Pause => {
            work_tells_no_pad(
                v.audio,
                swept(v.session, cancelling(), v.moment(), 0, 64),
                moved.audio,
                events,
            );
        },
    }
}

proof fn settling_tells_no_pad<S>(v: EngineView<S>, w: EngineView<S>, events: Seq<Event>)
    requires
        v.session.len() == 64,
        refusals_settle(v, w, events),
    ensures
        tells_no_pad(events),
{
    let from = EngineView { audio: AudioView { refused: 0, ..v.audio }, ..v };
    let step = refusal_step::<S>(v.audio.refused);
    let inv = |now: EngineView<S>, i: int, told: Seq<Event>|
        tells_no_pad(told) && now.session.len() == 64;
    assert forall|
        now: EngineView<S>,
        i: int,
        told: Seq<Event>,
        next: EngineView<S>,
        here: Seq<Event>,
    |
        0 <= i < 64 && #[trigger] inv(now, i, told) && #[trigger] step(
            now,
            i,
            next,
            here,
        ) implies inv(next, i + 1, told + here) by {
        if holds_place(v.audio.refused, i) {
            let work = tagged(
                SlotAddr::at(i),
                cleared(now.session[i], now.position),
            );
            let first = choose|first: Seq<Event>|
                #[trigger] session_moves(
                    now,
                    now.session.update(i, SlotState::Empty),
                    work,
                    next,
                    first,
                ) && here == first.push(Event::RecordingRefused { addr: SlotAddr::at(i) });
            work_tells_no_pad(now.audio, work, next.audio, first);
            assert forall|k: int| 0 <= k < here.len() implies !((
            #[trigger] here[k]) is SlotChanged) by {
                if k < first.len() {
                    assert(here[k] == first[k]);
                }
            }
        }
        no_pads_add(told, here);
    }
    chain_keeps_told(step, from, 64, w, events, inv);
}

proof fn capturing_tells_no_pad<S>(
    v: EngineView<S>,
    input: Seq<S>,
    offset: int,
    run: int,
    mid: Capturing<S>,
    events: Seq<Event>,
)
    requires
        captured_run(v, input, offset, run, mid, events),
    ensures
        tells_no_pad(events),
{
    let from = Capturing { audio: v.audio, tailed: 0, out: 0 };
    let step = capture_step(
        delivered(input, v.capture_channels, offset, run),
        v.capture_channels,
        run,
    );
    let inv = |now: Capturing<S>, i: int, told: Seq<Event>| tells_no_pad(told);
    assert forall|
        now: Capturing<S>,
        i: int,
        told: Seq<Event>,
        next: Capturing<S>,
        here: Seq<Event>,
    |
        0 <= i < 64 && #[trigger] inv(now, i, told) && #[trigger] step(
            now,
            i,
            next,
            here,
        ) implies inv(next, i + 1, told + here) by {
        assert(tells_no_pad(here));
        no_pads_add(told, here);
    }
    chain_keeps_told(step, from, 64, mid, events, inv);
}

/// Whether reports tell of the pads what became of them, from one picture to another.
pub open spec fn tells_the_pads(
    before: Seq<SlotState>,
    events: Seq<Event>,
    after: Seq<SlotState>,
) -> bool {
    mirrored(before, events) == after
}

/// Reports without a pad and then the changes tell the pads.
proof fn changes_tell(first: Seq<Event>, before: Seq<SlotState>, after: Seq<SlotState>)
    requires
        tells_no_pad(first),
        before.len() == 64,
        after.len() == 64,
    ensures
        tells_the_pads(before, first + changes(before, after, 64), after),
{
    mirrored_adds(before, first, changes(before, after, 64));
    mirrored_none(before, first);
    mirrored_all(before, after);
}

proof fn instructions_tell<S>(
    v: EngineView<S>,
    command: Command,
    w: EngineView<S>,
    events: Seq<Event>,
)
    requires
        v.session.len() == 64,
        w.session.len() == 64,
        handled(v, command, w, events),
    ensures
        tells_the_pads(v.session, events, w.session),
{
    let first = choose|first: Seq<Event>| #[trigger]
        commanded(v, command, w, first) && events == first + changes(v.session, w.session, 64);
    if command is Resync {
        let head = seq![Event::Tempo { bpm: v.grid.tempo_at() }, signature_report(v.grid)];
        let states = every_state(v.session);
        assert(first == head + states);
        assert(tells_no_pad(head));
        mirrored_adds(v.session, first, changes(v.session, w.session, 64));
        mirrored_adds(v.session, head, states);
        mirrored_none(v.session, head);
        mirrored_states(v.session, v.session, 64);
        assert(states.take(64) =~= states);
        assert(mirrored(v.session, states) =~= v.session);
        mirrored_all(v.session, w.session);
    } else {
        match command {
            Command::Clear(addr) => {
                work_tells_no_pad(
                    v.audio,
                    tagged(
                        addr,
                        cleared(v.session[addr.place()], v.position),
                    ),
                    w.audio,
                    first,
                );
            },
            Command::StopTrack(track) => {
                work_tells_no_pad(
                    v.audio,
                    swept(
                        v.session,
                        always(SlotInput::Stop),
                        v.moment(),
                        track.num() * 8,
                        track.num() * 8 + 8,
                    ),
                    w.audio,
                    first,
                );
            },
            Command::StopAll => {
                work_tells_no_pad(
                    v.audio,
                    swept(v.session, always(SlotInput::Stop), v.moment(), 0, 64),
                    w.audio,
                    first,
                );
            },
            Command::ClearAll => {
                if v.declick == 0 {
                    performing_tells_no_pad(v, Deferred::ClearAll, w, first);
                }
            },
            Command::Rewind => {
                if v.declick == 0 {
                    performing_tells_no_pad(v, Deferred::Rewind, w, first);
                }
            },
            Command::SetPaused(paused) => {
                if v.declick == 0 && paused && !v.paused && v.pending != Some(Deferred::Pause) {
                    performing_tells_no_pad(v, Deferred::Pause, w, first);
                }
            },
            _ => {},
        }
        assert(tells_no_pad(first));
        changes_tell(first, v.session, w.session);
    }
}

proof fn boundaries_tell<S>(v: EngineView<S>, w: EngineView<S>, events: Seq<Event>)
    requires
        v.session.len() == 64,
        w.session.len() == 64,
        reaches_boundary(v, w, events),
    ensures
        tells_the_pads(v.session, events, w.session),
{
    if on_new_beat(v) {
        let (mid, first, second) = choose|mid: EngineView<S>, first: Seq<Event>, second: Seq<Event>|
            #[trigger] advances(v, mid, first) && #[trigger] refusals_settle(mid, w, second)
                && events == beat_report(v.grid, v.position.0 as int) + first + second + changes(
                v.session,
                w.session,
                64,
            );
        let report = beat_report(v.grid, v.position.0 as int);
        work_tells_no_pad(
            v.audio,
            swept(v.session, always(SlotInput::Advance), v.moment(), 0, 64),
            mid.audio,
            first,
        );
        settling_tells_no_pad(mid, w, second);
        assert(tells_no_pad(report));
        no_pads_add(report, first);
        no_pads_add(report + first, second);
        changes_tell(report + first + second, v.session, w.session);
    }
}

proof fn finishing_tells<S>(
    v: EngineView<S>,
    input: Seq<S>,
    offset: int,
    run: int,
    w: EngineView<S>,
    events: Seq<Event>,
)
    requires
        v.session.len() == 64,
        w.session.len() == 64,
        finishes_run(v, input, offset, run, w, events),
    ensures
        tells_the_pads(v.session, events, w.session),
{
    let (mid, audio, first, second) = choose|
        mid: Capturing<S>,
        audio: AudioView<S>,
        first: Seq<Event>,
        second: Seq<Event>,
    |
        #![trigger captured_run(v, input, offset, run, mid, first), tails_end(mid, audio), first + second]
        captured_run(v, input, offset, run, mid, first) && tails_end(mid, audio) && cuts_short(
            EngineView { audio, ..v },
            mid.out,
            EngineView { click: v.click, position: v.position, ..w },
            second,
        ) && events == first + second;
    capturing_tells_no_pad(v, input, offset, run, mid, first);
    if mid.out == 0 {
        assert(tells_no_pad(second));
        no_pads_add(first, second);
        mirrored_none(v.session, events);
    } else {
        let cut = EngineView { click: v.click, position: v.position, ..w };
        let (settled, told) = choose|settled: EngineView<S>, told: Seq<Event>|
            chained(
                cut_step(mid.out),
                EngineView { audio, ..v },
                64,
                settled,
                Seq::empty(),
            ) && #[trigger] refusals_settle(settled, cut, told) && second == told + changes(
                v.session,
                cut.session,
                64,
            );
        chain_keeps(
            cut_step(mid.out),
            EngineView { audio, ..v },
            64,
            settled,
            Seq::empty(),
            |now: EngineView<S>, i: int| now.session.len() == 64,
        );
        settling_tells_no_pad(settled, cut, told);
        no_pads_add(first, told);
        assert(events =~= (first + told) + changes(v.session, w.session, 64));
        changes_tell(first + told, v.session, w.session);
    }
}

/// Putting a load in place keeps there being sixty-four pads, and reports none by itself.
proof fn committing_tells_no_pad<S>(v: EngineView<S>, w: EngineView<S>, events: Seq<Event>)
    requires
        v.session.len() == 64,
        commits(v, w, events),
    ensures
        tells_no_pad(events),
        w.session.len() == 64,
{
    let (mid, first) = choose|mid: EngineView<S>, first: Seq<Event>|
        chained(commit_step(), v, 64, mid, Seq::empty()) && #[trigger] rewinds(
            regridded_at_start(mid),
            w,
            first,
        ) && events == (match v.audio.staged_grid {
            Some(grid) => seq![signature_report(grid)] + first,
            None => first,
        });
    chain_keeps(
        commit_step(),
        v,
        64,
        mid,
        Seq::empty(),
        |now: EngineView<S>, i: int| now.session.len() == 64,
    );
    rewinding_tells_no_pad(regridded_at_start(mid), w, first);
    if let Some(grid) = v.audio.staged_grid {
        let head = seq![signature_report(grid)];
        assert(tells_no_pad(head));
        no_pads_add(head, first);
    }
}

proof fn loads_tell<S>(v: EngineView<S>, w: EngineView<S>, events: Seq<Event>)
    requires
        v.session.len() == 64,
        applies_loads(v, w, events),
    ensures
        tells_the_pads(v.session, events, w.session),
        w.session.len() == 64,
{
    let (messages, audio, complete) = choose|
        messages: Seq<LoadMessage<S>>,
        audio: AudioView<S>,
        complete: bool,
    |
        #[trigger] takes_in(v.audio, messages, audio, complete) && {
            let mid = arrived(v, messages, audio);
            if complete {
                settles_load(mid, w, events)
            } else {
                w == mid && events == Seq::<Event>::empty()
            }
        };
    let mid = arrived(v, messages, audio);
    if complete {
        if load_cost(mid.audio) > mid.audio.pool.capacity {
            assert(tells_no_pad(events));
            mirrored_none(v.session, events);
        } else {
            let first = choose|first: Seq<Event>| #[trigger]
                commits(mid, w, first) && events == first + changes(mid.session, w.session, 64);
            committing_tells_no_pad(mid, w, first);
            changes_tell(first, v.session, w.session);
        }
    }
}

proof fn beginning_tells<S>(
    v: EngineView<S>,
    faded: bool,
    frames: int,
    input_frames: int,
    w: EngineView<S>,
    events: Seq<Event>,
)
    requires
        v.session.len() == 64,
        begins_block(v, faded, frames, input_frames, w, events),
    ensures
        tells_the_pads(v.session, events, w.session),
{
    let (audio, mid, first, second) = block_steps(v, faded, frames, input_frames, w, events);
    loads_tell(EngineView { audio, ..v }, mid, first);
    match mid.pending {
        Some(action) if faded => {
            let ready = EngineView { pending: None, ..mid };
            let made = choose|made: Seq<Event>|
                #[trigger] performs(ready, action, w, made) && second == made + changes(
                    mid.session,
                    w.session,
                    64,
                );
            performing_tells_no_pad(ready, action, w, made);
            changes_tell(made, mid.session, w.session);
        },
        _ => {},
    }
    let short = if !w.paused && input_frames < frames {
        seq![Event::Xrun { frames: (frames - input_frames) as u64 }]
    } else {
        Seq::<Event>::empty()
    };
    assert(tells_no_pad(short));
    mirrored_adds(v.session, first, second);
    mirrored_adds(v.session, first + second, short);
    mirrored_none(mirrored(v.session, first + second), short);
}

/// The surface mirrors the engine. Whatever the engine does, a surface that showed every pad as it
/// was shows every pad as it is once it has taken in what the engine reported: a press, a beat, a
/// take cut short, a load, a move of the transport, and everything else.
pub proof fn the_surface_mirrors_the_engine<S>(
    v: EngineView<S>,
    w: EngineView<S>,
    events: Seq<Event>,
    surface: ControllerView,
    now: Nanos,
)
    requires
        moves(v, w, events),
        v.session.len() == 64,
        w.session.len() == 64,
        surface.session == v.session,
    ensures
        informed(surface, events, now, events.len() as int).session == w.session,
{
    surfaces_mirror(surface, events, now, events.len() as int);
    assert(events.take(events.len() as int) =~= events);
    if exists|command: Command| addressed(command) && #[trigger] handled(v, command, w, events) {
        let command = choose|command: Command|
            addressed(command) && #[trigger] handled(v, command, w, events);
        instructions_tell(v, command, w, events);
    } else if exists|faded: bool, frames: int, input_frames: int| #[trigger]
        begins_block(v, faded, frames, input_frames, w, events) {
        let (faded, frames, input_frames) = choose|faded: bool, frames: int, input_frames: int|
            #[trigger] begins_block(v, faded, frames, input_frames, w, events);
        beginning_tells(v, faded, frames, input_frames, w, events);
    } else if exists|left: int, run: Run| #[trigger] starts_run(v, left, w, events, run) {
        let (left, run) = choose|left: int, run: Run| #[trigger]
            starts_run(v, left, w, events, run);
        boundaries_tell(v, EngineView { click: v.click, ..w }, events);
    } else if exists|input: Seq<S>, offset: int, run: int|
        v.position.0 + run <= u64::MAX && 0 <= run && #[trigger] finishes_run(
            v,
            input,
            offset,
            run,
            w,
            events,
        ) {
        let (input, offset, run) = choose|input: Seq<S>, offset: int, run: int|
            v.position.0 + run <= u64::MAX && 0 <= run && #[trigger] finishes_run(
                v,
                input,
                offset,
                run,
                w,
                events,
            );
        finishing_tells(v, input, offset, run, w, events);
    } else {
        assert(reports_clock(v, w, events));
        assert(tells_no_pad(events));
        mirrored_none(v.session, events);
    }
}

} // verus!
