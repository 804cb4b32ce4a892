//! The promises the engine keeps, whatever the other threads do.

use vstd::arithmetic::div_mod::*;
use vstd::prelude::*;

use crate::audio::{
    applied, launched, less, receives, reclaims, sealed, staged_clips, staged_cost, AudioView,
    StagedView,
};
use crate::chain::{chain_keeps, chained};
use crate::clip::ClipView;
use crate::command::Command;
use crate::event::Event;
use crate::grid::{
    cut_offset, next_cut_is_next, nothing_between_cuts, rebasing_keeps_the_bar,
};
use crate::ids::{places_are_addresses, ClipId, SlotAddr};
use crate::load::LoadMessage;
use crate::session::{always, cancelling, moved, retargeted, swept};
use crate::slot::{Ctx, Effect, SlotInput, SlotState};
use crate::snapshot::Snapshot;
use crate::takes::{just_holds, storage_is_counted_exactly};
use crate::time::{Frames, Tempo};
use crate::transport::{
    advances, applies_loads, arrived, beat_report, begins_block, can_retime, cancels, captured_run,
    anchored_at, changes, clears, clicks, clips_rewound, clock_at, commanded, commit_step, commits, completion,
    count32, cut_step, cuts_short, every_state, finishes_run, handled, lands, load_cost, longest, measures, moved_back,
    on_new_beat, performs, publish_step, publishes_pad, reaches_boundary,
    refusal_step, refusals_settle, regridded_at_start, reports_clock, rewind_shift, rewinds, rewound, run_end,
    session_moves, settles_load, shows, signature_report, snapshots, start_anchor, starts_run,
    tail_settles, tails_end, takes_in, tone_at, Capturing, Deferred, EngineView, Publishing, Run,
};

verus! {

/// Where nothing changed, no pad is reported.
pub(crate) proof fn no_changes(states: Seq<SlotState>, to: int)
    ensures
        changes(states, states, to) == Seq::<Event>::empty(),
    decreases to,
{
    if to > 0 {
        no_changes(states, to - 1);
    }
}

/// Asking for everything again changes nothing and reports the whole of it: the tempo, the
/// signature and every pad.
pub proof fn a_resync_changes_nothing<S>(v: EngineView<S>, w: EngineView<S>, events: Seq<Event>)
    requires
        handled(v, Command::Resync, w, events),
    ensures
        w == v,
        events == seq![Event::Tempo { bpm: v.grid.tempo_at() }, signature_report(v.grid)]
            + every_state(v.session),
{
    no_changes(v.session, 64);
    let first = choose|first: Seq<Event>| #[trigger]
        commanded(v, Command::Resync, w, first) && events == first + changes(
            v.session,
            w.session,
            64,
        );
    assert(first + Seq::<Event>::empty() =~= first);
}

/// While a clip exists the tempo and the signature are locked: asking for another changes
/// nothing but for the refusal.
pub proof fn clips_lock_the_time<S>(
    v: EngineView<S>,
    command: Command,
    w: EngineView<S>,
    events: Seq<Event>,
)
    requires
        v.locked(),
        command is SetTempo || command is SetTimeSignature,
        handled(v, command, w, events),
    ensures
        w == v,
        events == seq![
            if command is SetTempo {
                Event::TempoRejected
            } else {
                Event::TimeSignatureRejected
            },
        ],
{
    no_changes(v.session, 64);
    let first = choose|first: Seq<Event>| #[trigger]
        commanded(v, command, w, first) && events == first + changes(v.session, w.session, 64);
    assert(first + Seq::<Event>::empty() =~= first);
}

/// A change of tempo that is taken keeps the transport in the bar it was in, and on the bar
/// line if it was on one.
pub proof fn a_tempo_change_keeps_the_bar<S>(
    v: EngineView<S>,
    tempo: Tempo,
    w: EngineView<S>,
    events: Seq<Event>,
)
    requires
        v.wf(),
        can_retime(v, tempo, v.time_signature),
        handled(v, Command::SetTempo(tempo), w, events),
    ensures
        w.position.0 as int / w.grid.bar() == v.position.0 as int / v.grid.bar(),
        v.position.0 as int % v.grid.bar() == 0 ==> w.position.0 as int % w.grid.bar() == 0,
        w.session == v.session,
{
    rebasing_keeps_the_bar(v.grid, v.position.0 as int, w.grid);
    if w != v {
        assert(measures(w.grid, v.sample_rate, tempo, v.time_signature));
        let at = v.grid.rebased(v.position.0 as int, w.grid);
        assert(at >= 0) by {
            if at < 0 {
                assert(at / w.grid.bar() < 0) by (nonlinear_arith)
                    requires
                        at < 0,
                        w.grid.bar() > 0,
                ;
                assert(v.position.0 as int / v.grid.bar() >= 0) by (nonlinear_arith)
                    requires
                        v.position.0 >= 0,
                        v.grid.bar() > 0,
                ;
            }
        }
    }
}

/// A run stops short of everything that is scheduled: no beat and no click falls inside it.
pub proof fn runs_hold_nothing_scheduled<S>(
    v: EngineView<S>,
    left: int,
    w: EngineView<S>,
    events: Seq<Event>,
    run: Run,
    cut: int,
)
    requires
        v.wf(),
        0 < clicks(v),
        starts_run(v, left, w, events, run),
    ensures
        0 <= cut <= v.grid.beats() ==> {
            let beat = v.grid.line_before(v.position.0 as int) + cut_offset(
                v.grid.bar(),
                cut,
                v.grid.beats(),
            );
            beat <= v.position.0 || v.position.0 + run.frames <= beat
        },
        0 <= cut <= clicks(v) ==> {
            let click = v.grid.line_before(v.position.0 as int) + cut_offset(
                v.grid.bar(),
                cut,
                clicks(v),
            );
            click <= v.position.0 || v.position.0 + run.frames <= click
        },
        0 < left ==> 0 < run.frames,
{
    let position = v.position.0 as int;
    next_cut_is_next(v.grid, position, v.grid.beats(), 0);
    next_cut_is_next(v.grid, position, clicks(v), 0);
    if 0 <= cut <= v.grid.beats() {
        next_cut_is_next(v.grid, position, v.grid.beats(), cut);
    }
    if 0 <= cut <= clicks(v) {
        next_cut_is_next(v.grid, position, clicks(v), cut);
    }
}

/// What no work on the pads touches: where the transport is and how it is measured.
pub open spec fn same_place<S>(v: EngineView<S>, w: EngineView<S>) -> bool {
    &&& w.grid == v.grid
    &&& w.position == v.position
    &&& w.last_boundary == v.last_boundary
    &&& w.last_clock == v.last_clock
    &&& w.clock_total == v.clock_total
    &&& w.paused == v.paused
    &&& w.pending == v.pending
    &&& w.channels == v.channels
    &&& w.capture_channels == v.capture_channels
}

proof fn settling_keeps_place<S>(v: EngineView<S>, w: EngineView<S>, events: Seq<Event>)
    requires
        refusals_settle(v, w, events),
    ensures
        same_place(v, w),
{
    chain_keeps(
        refusal_step(v.audio.refused),
        EngineView { audio: AudioView { refused: 0, ..v.audio }, ..v },
        64,
        w,
        events,
        |mid: EngineView<S>, i: int| same_place(v, mid),
    );
}

/// Everything scheduled for a frame fires once: the transport that has reached a beat is no
/// longer waiting for it, and reaching it again does nothing.
pub proof fn boundaries_fire_once<S>(v: EngineView<S>, w: EngineView<S>, events: Seq<Event>)
    requires
        reaches_boundary(v, w, events),
    ensures
        !on_new_beat(w),
        w.position == v.position,
        w.grid == v.grid,
        forall|again: EngineView<S>, more: Seq<Event>| #[trigger]
            reaches_boundary(w, again, more) ==> again == w && more == Seq::<Event>::empty(),
{
    if on_new_beat(v) {
        let (mid, first, second) = choose|mid: EngineView<S>, first: Seq<Event>, second: Seq<Event>|
            #[trigger] advances(v, mid, first) && #[trigger] refusals_settle(mid, w, second)
                && events == beat_report(v.grid, v.position.0 as int) + first
                + second + changes(v.session, w.session, 64);
        settling_keeps_place(mid, w, second);
    }
}

/// What fires at a boundary leaves the transport where it is.
pub(crate) proof fn starting_keeps_place<S>(
    v: EngineView<S>,
    w: EngineView<S>,
    events: Seq<Event>,
)
    requires
        reaches_boundary(v, w, events),
    ensures
        w.position == v.position,
        w.paused == v.paused,
        w.grid == v.grid,
        w.last_clock == v.last_clock,
        w.clock_total == v.clock_total,
{
    if on_new_beat(v) {
        let (mid, first, second) = choose|mid: EngineView<S>, first: Seq<Event>, second: Seq<Event>|
            #[trigger] advances(v, mid, first) && #[trigger] refusals_settle(mid, w, second)
                && events == beat_report(v.grid, v.position.0 as int) + first + second + changes(
                v.session,
                w.session,
                64,
            );
        settling_keeps_place(mid, w, second);
    }
}

/// Capturing a run never moves the transport by itself.
proof fn cutting_keeps_place<S>(v: EngineView<S>, out: u64, w: EngineView<S>, events: Seq<Event>)
    requires
        cuts_short(v, out, w, events),
    ensures
        same_place(v, w),
{
    if out != 0 {
        let (mid, first) = choose|mid: EngineView<S>, first: Seq<Event>|
            chained(cut_step(out), v, 64, mid, Seq::empty()) && #[trigger] refusals_settle(
                mid,
                w,
                first,
            ) && events == first + changes(v.session, w.session, 64);
        chain_keeps(
            cut_step(out),
            v,
            64,
            mid,
            Seq::empty(),
            |mid: EngineView<S>, i: int| same_place(v, mid),
        );
        settling_keeps_place(mid, w, first);
    }
}

/// A run moves the transport on by exactly its own length, and nothing else does while it
/// plays.
pub proof fn a_run_moves_by_its_length<S>(
    v: EngineView<S>,
    input: Seq<S>,
    offset: int,
    run: int,
    w: EngineView<S>,
    events: Seq<Event>,
)
    requires
        0 <= run,
        v.position.0 + run <= u64::MAX,
        finishes_run(v, input, offset, run, w, events),
    ensures
        w.position.0 == v.position.0 + run,
        w.grid == v.grid,
        w.clock_total == v.clock_total,
        w.last_clock == v.last_clock,
        w.paused == v.paused,
        w.pending == v.pending,
        w.last_boundary == v.last_boundary,
{
    let (mid, audio, first, second) = choose|
        mid: Capturing<S>,
        audio: AudioView<S>,
        first: Seq<Event>,
        second: Seq<Event>,
    |
        #![trigger captured_run(v, input, offset, run, mid, first), tails_end(mid, audio), first + second]
        captured_run(v, input, offset, run, mid, first) && tails_end(mid, audio) && cuts_short(
            EngineView { audio, ..v },
            mid.out,
            EngineView { click: v.click, position: v.position, ..w },
            second,
        ) && events == first + second && w.click == v.click.played(run) && w.position == Frames(
            (v.position.0 + run) as u64,
        );
    cutting_keeps_place(
        EngineView { audio, ..v },
        mid.out,
        EngineView { click: v.click, position: v.position, ..w },
        second,
    );
}

/// Whether the pad or track an instruction is for exists.
pub open spec fn addressed(command: Command) -> bool {
    match command {
        Command::Press(addr) => addr.wf(),
        Command::Clear(addr) => addr.wf(),
        Command::StopTrack(track) => track.wf(),
        _ => true,
    }
}

/// One thing the engine does: it obeys an instruction, begins a block, starts a run, finishes
/// one, or reports the clock.
pub open spec fn moves<S>(v: EngineView<S>, w: EngineView<S>, events: Seq<Event>) -> bool {
    ||| exists|command: Command|
        addressed(command) && #[trigger] handled(v, command, w, events)
    ||| exists|faded: bool, frames: int, input_frames: int| #[trigger]
        begins_block(v, faded, frames, input_frames, w, events)
    ||| exists|left: int, run: Run| #[trigger] starts_run(v, left, w, events, run)
    ||| exists|input: Seq<S>, offset: int, run: int|
        v.position.0 + run <= u64::MAX && 0 <= run && #[trigger] finishes_run(
            v,
            input,
            offset,
            run,
            w,
            events,
        )
    ||| reports_clock(v, w, events)
}

/// Going back to the start moves the transport and nothing it has counted.
proof fn rewinding_counts_nothing<S>(v: EngineView<S>, w: EngineView<S>, events: Seq<Event>)
    requires
        rewinds(v, w, events),
    ensures
        w.clock_total == v.clock_total,
        w.position.0 == 0,
        w.last_boundary is None,
        w.grid == v.grid,
        w.paused == v.paused,
        w.pending == v.pending,
{
}

proof fn clearing_counts_nothing<S>(v: EngineView<S>, w: EngineView<S>, events: Seq<Event>)
    requires
        clears(v, w, events),
    ensures
        w.clock_total == v.clock_total,
        w.position.0 == 0,
        w.grid == v.grid,
        w.paused == v.paused,
{
}

proof fn performing_counts_nothing<S>(
    v: EngineView<S>,
    action: Deferred,
    w: EngineView<S>,
    events: Seq<Event>,
)
    requires
        performs(v, action, w, events),
    ensures
        w.clock_total == v.clock_total,
        w.grid == v.grid,
{
    let moved = EngineView { silenced: v.silenced, ..w };
    match action {
        Deferred::Rewind => rewinding_counts_nothing(v, moved, events),
        Deferred::ClearAll => clearing_counts_nothing(v, moved, events),
        Deferred::Pause => {},
    }
}

proof fn committing_counts_nothing<S>(v: EngineView<S>, w: EngineView<S>, events: Seq<Event>)
    requires
        commits(v, w, events),
    ensures
        w.clock_total == v.clock_total,
        w.position.0 == 0,
        w.paused,
        w.pending is None,
{
    let (mid, first) = choose|mid: EngineView<S>, first: Seq<Event>|
        chained(commit_step(), v, 64, mid, Seq::empty()) && #[trigger] rewinds(
            regridded_at_start(mid),
            w,
            first,
        );
    chain_keeps(
        commit_step(),
        v,
        64,
        mid,
        Seq::empty(),
        |mid: EngineView<S>, i: int| same_place(v, mid),
    );
    rewinding_counts_nothing(regridded_at_start(mid), w, first);
}

/// The clock never goes back, whatever is done to the transport, and nothing but reporting it
/// moves it on. What is reported is the count itself.
pub proof fn the_clock_never_goes_back<S>(v: EngineView<S>, w: EngineView<S>, events: Seq<Event>)
    requires
        moves(v, w, events),
    ensures
        v.clock_total <= w.clock_total,
        v.clock_total < w.clock_total ==> reports_clock(v, w, events) && events == seq![
            Event::Clock { total: w.clock_total },
        ],
{
    if exists|command: Command| #[trigger] handled(v, command, w, events) {
        let command = choose|command: Command| #[trigger] handled(v, command, w, events);
        let first = choose|first: Seq<Event>| #[trigger]
            commanded(v, command, w, first) && events == first + changes(v.session, w.session, 64);
        match command {
            Command::ClearAll => {
                if v.declick == 0 {
                    performing_counts_nothing(v, Deferred::ClearAll, w, first);
                }
            },
            Command::Rewind => {
                if v.declick == 0 {
                    performing_counts_nothing(v, Deferred::Rewind, w, first);
                }
            },
            Command::SetPaused(paused) => {
                if v.declick == 0 && paused && !v.paused && v.pending != Some(Deferred::Pause) {
                    performing_counts_nothing(v, Deferred::Pause, w, first);
                }
            },
            _ => {},
        }
    } else if exists|faded: bool, frames: int, input_frames: int| #[trigger]
        begins_block(v, faded, frames, input_frames, w, events) {
        let (faded, frames, input_frames) = choose|faded: bool, frames: int, input_frames: int|
            #[trigger] begins_block(v, faded, frames, input_frames, w, events);
        beginning_counts_nothing(v, faded, frames, input_frames, w, events);
    } else if exists|left: int, run: Run| #[trigger] starts_run(v, left, w, events, run) {
        let (left, run) = choose|left: int, run: Run| #[trigger]
            starts_run(v, left, w, events, run);
        let mid = EngineView { click: v.click, ..w };
        reaching_counts_nothing(v, mid, events);
    } else if exists|input: Seq<S>, offset: int, run: int|
        v.position.0 + run <= u64::MAX && 0 <= run && #[trigger] finishes_run(
            v,
            input,
            offset,
            run,
            w,
            events,
        ) {
        let (input, offset, run) = choose|input: Seq<S>, offset: int, run: int|
            v.position.0 + run <= u64::MAX && 0 <= run && #[trigger] finishes_run(
                v,
                input,
                offset,
                run,
                w,
                events,
            );
        a_run_moves_by_its_length(v, input, offset, run, w, events);
    }
}

proof fn reaching_counts_nothing<S>(v: EngineView<S>, w: EngineView<S>, events: Seq<Event>)
    requires
        reaches_boundary(v, w, events),
    ensures
        w.clock_total == v.clock_total,
{
    if on_new_beat(v) {
        let (mid, first, second) = choose|mid: EngineView<S>, first: Seq<Event>, second: Seq<Event>|
            #[trigger] advances(v, mid, first) && #[trigger] refusals_settle(mid, w, second)
                && events == beat_report(v.grid, v.position.0 as int) + first + second + changes(
                v.session,
                w.session,
                64,
            );
        settling_keeps_place(mid, w, second);
    }
}

pub(crate) proof fn beginning_counts_nothing<S>(
    v: EngineView<S>,
    faded: bool,
    frames: int,
    input_frames: int,
    w: EngineView<S>,
    events: Seq<Event>,
)
    requires
        begins_block(v, faded, frames, input_frames, w, events),
    ensures
        w.clock_total == v.clock_total,
{
    let (audio, mid, first, second) = block_steps(
        v,
        faded,
        frames,
        input_frames,
        w,
        events,
    );
    let from = EngineView { audio, ..v };
    let (messages, taken, complete) = choose|
        messages: Seq<LoadMessage<S>>,
        taken: AudioView<S>,
        complete: bool,
    |
        #[trigger] takes_in(from.audio, messages, taken, complete) && {
            let begun = arrived(from, messages, taken);
            if complete {
                settles_load(begun, mid, first)
            } else {
                mid == begun && first == Seq::<Event>::empty()
            }
        };
    if complete {
        let begun = arrived(from, messages, taken);
        if load_cost(taken) <= taken.pool.capacity {
            let made = choose|made: Seq<Event>| #[trigger]
                commits(begun, mid, made) && first == made + changes(
                    begun.session,
                    mid.session,
                    64,
                );
            committing_counts_nothing(begun, mid, made);
        }
    }
    match mid.pending {
        Some(action) if faded => {
            let made = choose|made: Seq<Event>|
                #[trigger] performs(EngineView { pending: None, ..mid }, action, w, made) && second
                    == made + changes(mid.session, w.session, 64);
            performing_counts_nothing(EngineView { pending: None, ..mid }, action, w, made);
        },
        _ => {},
    }
}

/// The steps a block begins with: what came back, then what arrived, then what was waiting.
pub(crate) proof fn block_steps<S>(
    v: EngineView<S>,
    faded: bool,
    frames: int,
    input_frames: int,
    w: EngineView<S>,
    events: Seq<Event>,
) -> (steps: (AudioView<S>, EngineView<S>, Seq<Event>, Seq<Event>))
    requires
        begins_block(v, faded, frames, input_frames, w, events),
    ensures
        reclaims(v.audio, steps.0),
        applies_loads(EngineView { audio: steps.0, ..v }, steps.1, steps.2),
        lands(steps.1, faded, w, steps.3),
        events == steps.2 + steps.3 + (if !w.paused && input_frames < frames {
            seq![Event::Xrun { frames: (frames - input_frames) as u64 }]
        } else {
            Seq::<Event>::empty()
        }),
{
    choose|
        audio: AudioView<S>,
        mid: EngineView<S>,
        first: Seq<Event>,
        second: Seq<Event>,
    |
        #![trigger reclaims(v.audio, audio), applies_loads(EngineView { audio, ..v }, mid, first), lands(mid, faded, w, second)]
        reclaims(v.audio, audio) && applies_loads(EngineView { audio, ..v }, mid, first)
            && lands(mid, faded, w, second) && events == first + second + (if !w.paused
            && input_frames < frames {
            seq![Event::Xrun { frames: (frames - input_frames) as u64 }]
        } else {
            Seq::<Event>::empty()
        })
}

/// What a load that is still arriving leaves alone: every pad, what it plays and captures, and
/// the storage.
pub open spec fn pads_untouched<S>(v: AudioView<S>, w: AudioView<S>) -> bool {
    &&& w.clips == v.clips
    &&& w.recordings == v.recordings
    &&& w.anchors == v.anchors
    &&& w.shells == v.shells
    &&& w.pool == v.pool
    &&& w.next_clip_id == v.next_clip_id
    &&& w.inputs == v.inputs
    &&& w.launch_modes == v.launch_modes
    &&& w.pickups == v.pickups
    &&& w.bar_frames == v.bar_frames
    &&& w.tail_frames == v.tail_frames
    &&& w.capture_offset == v.capture_offset
    &&& w.published == v.published
    &&& w.lost == v.lost
    &&& w.refused == v.refused
}

/// Steps of a load arriving touch no pad, however many there are: what plays goes on until all
/// of it has arrived.
pub proof fn an_arriving_load_touches_no_pad<S>(
    v: AudioView<S>,
    messages: Seq<LoadMessage<S>>,
    w: AudioView<S>,
    complete: bool,
)
    requires
        takes_in(v, messages, w, complete),
    ensures
        pads_untouched(v, w),
    decreases messages.len(),
{
    if messages.len() > 0 {
        let (mid, alone) = choose|mid: AudioView<S>, alone: bool|
            takes_in(v, messages.drop_last(), mid, false) && #[trigger] receives(
                mid,
                messages.last(),
                alone,
                w,
                complete,
            );
        an_arriving_load_touches_no_pad(v, messages.drop_last(), mid, false);
    }
}

/// A load that holds more than the pool allows changes nothing but for the refusal: what was
/// there plays on, and what arrived goes back.
pub proof fn a_refused_load_changes_no_pad<S>(
    v: EngineView<S>,
    w: EngineView<S>,
    events: Seq<Event>,
)
    requires
        settles_load(v, w, events),
        load_cost(v.audio) > v.audio.pool.capacity,
    ensures
        pads_untouched(v.audio, w.audio),
        w.session == v.session,
        same_place(v, w),
        events == seq![
            Event::LoadRefused {
                wanted: count32(load_cost(v.audio)),
                allowed: count32(v.audio.pool.capacity),
            },
        ],
        !w.audio.receiving,
        forall|place: int| 0 <= place < 64 ==> (#[trigger] w.audio.staged[place]) is None,
        w.audio.retired == v.audio.retired + staged_clips(v.audio.staged, 64),
{
}

/// What a load costs is what its clips cost together: each the segments that its loop and its tail
/// take up. So no load is refused that holds no more than the pool allows, pad by pad.
pub proof fn a_load_costs_its_audio<S>(staged: Seq<Option<StagedView<S>>>, to: int, place: int)
    requires
        0 <= place < to <= staged.len(),
        forall|p: int|
            0 <= p < to && (#[trigger] staged[p]) is Some ==> 0 <= staged[p]->Some_0.clip.len && 0
                <= staged[p]->Some_0.clip.tail && staged[p]->Some_0.clip.len
                + staged[p]->Some_0.clip.tail <= 65_536 * u32::MAX,
    ensures
        0 <= staged_cost(staged, to),
        staged_cost(staged, to) == staged_cost(staged.update(place, None), to) + (
        match staged[place] {
            Some(staged_clip) => staged_clip.clip.cost(),
            None => 0,
        }),
        staged[place] matches Some(staged_clip) ==> just_holds(
            staged_clip.clip.cost(),
            staged_clip.clip.len + staged_clip.clip.tail,
        ),
    decreases to,
{
    let without = staged.update(place, None);
    if let Some(staged_clip) = staged[place] {
        storage_is_counted_exactly(staged_clip.clip.len + staged_clip.clip.tail);
    }
    if let Some(staged_clip) = staged[to - 1] {
        storage_is_counted_exactly(staged_clip.clip.len + staged_clip.clip.tail);
    }
    if place < to - 1 {
        a_load_costs_its_audio(staged, to - 1, place);
        assert(without[to - 1] == staged[to - 1]);
    } else {
        costs_match(staged, without, to - 1);
        if to > 1 {
            a_load_costs_its_audio(staged, to - 1, 0);
        }
    }
}

/// What clips cost rests on the clips alone.
proof fn costs_match<S>(a: Seq<Option<StagedView<S>>>, b: Seq<Option<StagedView<S>>>, to: int)
    requires
        to <= a.len(),
        to <= b.len(),
        forall|p: int| 0 <= p < to ==> (#[trigger] a[p]) == b[p],
    ensures
        staged_cost(a, to) == staged_cost(b, to),
    decreases to,
{
    if to > 0 {
        costs_match(a, b, to - 1);
    }
}

/// What a pad does once a load is in place.
pub open spec fn loaded_state<S>(staged: Option<StagedView<S>>, state: SlotState) -> bool {
    match staged {
        None => state is Empty,
        Some(staged) => if staged.playing {
            state is Playing
        } else {
            state is Stopped
        },
    }
}

/// Whether a pad holds what arrived for it, its anchor moved back, and does what it was saved as
/// doing. A clip that somebody else was found to be reading keeps its anchor.
pub open spec fn loaded_pad<S>(
    staged: Option<StagedView<S>>,
    state: SlotState,
    clip: Option<ClipView<S>>,
    anchor: Option<Frames>,
    by: int,
) -> bool {
    loaded_state(staged, state) && match staged {
        None => clip is None && anchor is None,
        Some(staged) => {
            &&& exists|alone: bool| clip == rewound(Some(staged.clip), by, alone)
            &&& clip is Some
            &&& clip->Some_0.buffer == staged.clip.buffer
            &&& clip->Some_0.len == staged.clip.len
            &&& clip->Some_0.tail == staged.clip.tail
            &&& clip->Some_0.capture_offset == staged.clip.capture_offset
            &&& anchor is Some <==> staged.playing && staged.launch_anchor is Some
            &&& anchor is Some && 0 < staged.clip.len <= u64::MAX ==> anchor->Some_0.0 == (
            staged.launch_anchor->Some_0.0 - by) % staged.clip.len
        },
    }
}

/// A load that is complete takes every pad: each one holds what arrived for it, playing or
/// stopped as it was saved, and every other pad is empty. All of them moved back by the same
/// amount. The transport is at the start, frozen, on the grid that came with the load.
pub proof fn a_load_takes_every_pad<S>(
    v: EngineView<S>,
    w: EngineView<S>,
    events: Seq<Event>,
) -> (by: int)
    requires
        v.wf(),
        commits(v, w, events),
    ensures
        forall|place: int|
            #![trigger w.session[place]]
            0 <= place < 64 ==> loaded_pad(
                v.audio.staged[place],
                w.session[place],
                w.audio.clips[place],
                w.audio.anchors[place],
                by,
            ),
        w.audio.staged_grid is None,
        w.grid == (match v.audio.staged_grid {
            Some(grid) => grid,
            None => v.grid,
        }),
        w.position.0 == 0,
        w.paused,
        w.pending is None,
{
    let (mid, first) = choose|mid: EngineView<S>, first: Seq<Event>|
        chained(commit_step(), v, 64, mid, Seq::empty()) && #[trigger] rewinds(
            regridded_at_start(mid),
            w,
            first,
        );
    chain_keeps(
        commit_step(),
        v,
        64,
        mid,
        Seq::empty(),
        |now: EngineView<S>, i: int| committed(v, now, i),
    );
    let from = regridded_at_start(mid);
    let (before, alone) = rewind_steps(from, w, first);
    assert forall|p: int| 0 <= p < 64 implies !(#[trigger] from.session[p] is Recording) by {
        assert(loaded_state(v.audio.staged[p], from.session[p]));
    }
    nothing_cancelled(from, before, first);
    let by = rewind_shift(before.audio, w.session);
    assert forall|place: int|
        #![trigger w.session[place]]
        0 <= place < 64 implies loaded_pad(
        v.audio.staged[place],
        w.session[place],
        w.audio.clips[place],
        w.audio.anchors[place],
        by,
    ) by {
        assert(loaded_state(v.audio.staged[place], from.session[place]));
        assert(w.session[place] == retargeted(before.session[place], Frames(0)));
        assert(w.audio.clips[place] == rewound(before.audio.clips[place], by, alone[place]));
        assert(before.audio.anchors[place] == from.audio.anchors[place]);
        if let Some(staged) = v.audio.staged[place] {
            if 0 < staged.clip.len {
                if let Some(at) = staged.launch_anchor {
                    lemma_mod_bound(at.0 - by, staged.clip.len);
                }
            }
        }
    }
    by
}

/// How far putting a load in place has come: the pads before a place are done, and nothing is
/// taken from what arrived for the others.
spec fn committed<S>(v: EngineView<S>, now: EngineView<S>, to: int) -> bool {
    &&& same_place(v, now)
    &&& now.session.len() == 64
    &&& now.audio.clips.len() == 64
    &&& now.audio.staged.len() == 64
    &&& now.audio.recordings.len() == 64
    &&& now.audio.anchors.len() == 64
    &&& now.audio.staged_grid == v.audio.staged_grid
    &&& forall|p: int| to <= p < 64 ==> #[trigger] now.audio.staged[p] == v.audio.staged[p]
    &&& forall|p: int|
        0 <= p < to ==> loaded_state(v.audio.staged[p], #[trigger] now.session[p])
    &&& forall|p: int|
        0 <= p < to ==> #[trigger] now.audio.clips[p] == (match v.audio.staged[p] {
            None => None,
            Some(staged) => Some(staged.clip),
        })
    &&& forall|p: int|
        0 <= p < to ==> #[trigger] now.audio.anchors[p] == (match v.audio.staged[p] {
            None => None,
            Some(staged) => staged.launch_anchor,
        })
}

/// The steps of going back to the start: every take is discarded, and then the clips move.
proof fn rewind_steps<S>(v: EngineView<S>, w: EngineView<S>, events: Seq<Event>) -> (steps: (
    EngineView<S>,
    Seq<bool>,
))
    requires
        rewinds(v, w, events),
    ensures
        cancels(v, steps.0, events),
        rewound_from(v, steps.0, steps.1, w),
{
    choose|mid: EngineView<S>, alone: Seq<bool>|
        #![trigger cancels(v, mid, events), clips_rewound(mid.audio, w.session, alone, w.audio)]
        cancels(v, mid, events) && rewound_from(v, mid, alone, w)
}

/// The transport at the start, seen from the moment every take was discarded.
spec fn rewound_from<S>(
    v: EngineView<S>,
    mid: EngineView<S>,
    alone: Seq<bool>,
    w: EngineView<S>,
) -> bool {
    w == (EngineView {
        position: Frames(0),
        last_boundary: None,
        last_clock: clock_at(v.grid, 0),
        session: mid.session.map_values(|state: SlotState| retargeted(state, Frames(0))),
        audio: w.audio,
        ..mid
    }) && clips_rewound(mid.audio, w.session, alone, w.audio)
}

/// Where no pad is recording, discarding every take does nothing.
proof fn nothing_cancelled<S>(v: EngineView<S>, w: EngineView<S>, events: Seq<Event>)
    requires
        v.session.len() == 64,
        forall|p: int| 0 <= p < 64 ==> !(#[trigger] v.session[p] is Recording),
        cancels(v, w, events),
    ensures
        w == v,
        events == Seq::<Event>::empty(),
{
    nothing_swept(v.session, v.moment(), 64);
    assert(moved(v.session, cancelling(), v.moment(), 0, 64) =~= v.session);
}

proof fn nothing_swept(states: Seq<SlotState>, ctx: Ctx, to: int)
    requires
        0 <= to <= 64,
        states.len() == 64,
        forall|p: int| 0 <= p < 64 ==> !(#[trigger] states[p] is Recording),
    ensures
        swept(states, cancelling(), ctx, 0, to) == Seq::<(SlotAddr, Effect)>::empty(),
    decreases to,
{
    if to > 0 {
        nothing_swept(states, ctx, to - 1);
        assert(!(states[to - 1] is Recording));
    }
}

/// Emptying everything leaves every pad empty and the transport at the start.
pub proof fn a_clear_empties_every_pad<S>(v: EngineView<S>, w: EngineView<S>, events: Seq<Event>)
    requires
        v.wf(),
        clears(v, w, events),
    ensures
        forall|place: int| 0 <= place < 64 ==> (#[trigger] w.session[place]) is Empty,
        w.position.0 == 0,
        !w.locked(),
{
    let (mid, first, second) = choose|mid: EngineView<S>, first: Seq<Event>, second: Seq<Event>|
        session_moves(
            v,
            Seq::new(64, |i: int| SlotState::Empty),
            swept(v.session, always(SlotInput::Clear), v.moment(), 0, 64),
            mid,
            first,
        ) && #[trigger] rewinds(mid, w, second) && events == #[trigger] (first + second);
    let (before, alone) = rewind_steps(mid, w, second);
    assert forall|p: int| 0 <= p < 64 implies !(#[trigger] mid.session[p] is Recording) by {}
    nothing_cancelled(mid, before, second);
    assert forall|place: int| 0 <= place < 64 implies (#[trigger] w.session[place]) is Empty by {
        assert(mid.session[place] is Empty);
    }
}

/// Going back to the start keeps every clip where it is, playing or stopped as it was. Only a
/// take in progress is lost.
pub proof fn a_rewind_keeps_every_clip<S>(
    v: EngineView<S>,
    w: EngineView<S>,
    events: Seq<Event>,
    place: int,
)
    requires
        v.wf(),
        rewinds(v, w, events),
        0 <= place < 64,
    ensures
        w.session[place].held() == v.session[place].held(),
        w.session[place].sounding() == v.session[place].sounding(),
        v.session[place] is Recording ==> w.session[place] is Empty,
        w.position.0 == 0,
{
    let (before, alone) = rewind_steps(v, w, events);
    assert(before.session[place] == moved(
        v.session,
        cancelling(),
        v.moment(),
        0,
        64,
    )[place]);
}

/// Pads a snapshot has something of, among those before a place: finished audio.
pub open spec fn finished<S>(session: Seq<SlotState>, clips: Seq<Option<ClipView<S>>>, to: int) -> int
    decreases to,
{
    if to <= 0 {
        0
    } else {
        finished(session, clips, to - 1) + (if !session[to - 1].recording() && clips[to
            - 1] is Some {
            1int
        } else {
            0
        })
    }
}

/// Whether one clip is another, but for how much of its tail counts.
pub open spec fn same_take<S>(clip: Option<ClipView<S>>, other: Option<ClipView<S>>) -> bool {
    match (clip, other) {
        (Some(clip), Some(other)) => clip == (ClipView { tail: clip.tail, ..other }),
        _ => clip is None && other is None,
    }
}

/// Whether what was published is what a pad before a place holds and does: its audio, its state and
/// where it was launched, for the request it answers.
pub open spec fn is_faithful<S>(
    v: EngineView<S>,
    request: u32,
    snapshot: Snapshot<S>,
    to: int,
) -> bool {
    let place = snapshot.addr.place();
    &&& snapshot.request == request
    &&& 0 <= place < to
    &&& snapshot.addr == SlotAddr::at(place)
    &&& !v.session[place].recording()
    &&& snapshot.state == v.session[place]
    &&& snapshot.launch_anchor == v.audio.anchors[place]
    &&& same_take(Some(snapshot.clip@), v.audio.clips[place])
}

/// How far a snapshot has come.
spec fn counted<S>(v: EngineView<S>, request: u32, now: Publishing<S>, to: int) -> bool {
    &&& now.audio.clips.len() == 64
    &&& now.audio.recordings.len() == 64
    &&& now.audio.anchors == v.audio.anchors
    &&& forall|p: int|
        0 <= p < 64 ==> same_take(#[trigger] now.audio.clips[p], v.audio.clips[p])
    &&& forall|k: int|
        v.audio.published.len() <= k < now.audio.published.len() ==> is_faithful(
            v,
            request,
            #[trigger] now.audio.published[k],
            to,
        )
    &&& forall|k: int, l: int|
        v.audio.published.len() <= k < l < now.audio.published.len() ==> (
        #[trigger] now.audio.published[k]).addr.place() < (
        #[trigger] now.audio.published[l]).addr.place()
    &&& now.expected == finished(v.session, v.audio.clips, to)
    &&& 0 <= now.published <= now.expected <= to
    &&& now.audio.published.len() == v.audio.published.len() + now.published
    &&& now.audio.published.take(v.audio.published.len() as int) == v.audio.published
}

/// A snapshot says truly how much of it there is: it counts every pad that holds finished audio,
/// publishes no more than that, and what it says it published is what was.
pub proof fn a_snapshot_counts_truly<S>(
    v: EngineView<S>,
    request: u32,
    w: EngineView<S>,
    events: Seq<Event>,
)
    requires
        v.wf(),
        snapshots(v, request, w, events),
    ensures
        events.len() == 1,
        ({
            let expected = finished(v.session, v.audio.clips, 64);
            let published = w.audio.published.len() - v.audio.published.len();
            &&& 0 <= published <= expected <= 64
            &&& events[0] == Event::SnapshotComplete {
                request,
                clips: published as u32,
                expected: expected as u32,
            }
        }),
        w.session == v.session,
        same_place(v, w),
        w.audio.published.take(v.audio.published.len() as int) == v.audio.published,
        forall|k: int|
            v.audio.published.len() <= k < w.audio.published.len() ==> is_faithful(
                v,
                request,
                #[trigger] w.audio.published[k],
                64,
            ),
        forall|k: int, l: int|
            v.audio.published.len() <= k < l < w.audio.published.len() ==> (
            #[trigger] w.audio.published[k]).addr.place() < (
            #[trigger] w.audio.published[l]).addr.place(),
        forall|place: int|
            0 <= place < 64 ==> same_take(#[trigger] w.audio.clips[place], v.audio.clips[place]),
{
    let (published, expected) = choose|published: int, expected: int|
        w == (EngineView { audio: w.audio, ..v }) && chained(
            publish_step(request, v.session),
            Publishing { audio: v.audio, published: 0, expected: 0 },
            64,
            Publishing { audio: w.audio, published, expected },
            Seq::empty(),
        ) && events == #[trigger] completion(request, published, expected);
    let step = publish_step(request, v.session);
    let from = Publishing { audio: v.audio, published: 0, expected: 0 };
    assert(v.audio.published.take(v.audio.published.len() as int) =~= v.audio.published);
    assert forall|now: Publishing<S>, i: int, next: Publishing<S>, here: Seq<Event>|
        0 <= i < 64 && #[trigger] counted(v, request, now, i) && #[trigger] step(
            now,
            i,
            next,
            here,
        ) implies counted(v, request, next, i + 1) by {
        let (mid, alone) = choose|mid: AudioView<S>, alone: bool|
            #[trigger] tail_settles(now.audio, i, alone, mid) && publishes_pad(
                Publishing { audio: mid, ..now },
                request,
                v.session,
                i,
                next,
            );
        assert(mid.published == now.audio.published);
        assert(same_take(now.audio.clips[i], v.audio.clips[i]));
        assert forall|p: int| 0 <= p < 64 implies same_take(
            #[trigger] mid.clips[p],
            v.audio.clips[p],
        ) by {
            assert(same_take(now.audio.clips[p], v.audio.clips[p]));
        }
        places_are_addresses(SlotAddr::at(i), i);
        if next.audio.published.len() == now.audio.published.len() + 1 {
            assert(next.audio.published.take(v.audio.published.len() as int)
                =~= now.audio.published.take(v.audio.published.len() as int)) by {
                assert forall|k: int| 0 <= k < v.audio.published.len() implies
                    next.audio.published[k] == now.audio.published[k] by {
                    assert(next.audio.published.drop_last()[k] == next.audio.published[k]);
                }
            }
            assert(shows(next.audio.published.last(), request, i, v.session, mid));
            assert(mid.anchors == v.audio.anchors);
            assert(is_faithful(v, request, next.audio.published.last(), i + 1));
            assert forall|k: int|
                v.audio.published.len() <= k < next.audio.published.len() implies is_faithful(
                v,
                request,
                #[trigger] next.audio.published[k],
                i + 1,
            ) by {
                if k < now.audio.published.len() {
                    assert(next.audio.published.drop_last()[k] == next.audio.published[k]);
                    assert(is_faithful(v, request, now.audio.published[k], i));
                }
            }
            assert forall|k: int, l: int|
                v.audio.published.len() <= k < l < next.audio.published.len() implies (
            #[trigger] next.audio.published[k]).addr.place() < (
            #[trigger] next.audio.published[l]).addr.place() by {
                assert(next.audio.published.drop_last()[k] == next.audio.published[k]);
                assert(now.audio.published[k] == next.audio.published[k]);
                assert(is_faithful(v, request, now.audio.published[k], i));
                if l < now.audio.published.len() {
                    assert(next.audio.published.drop_last()[l] == next.audio.published[l]);
                }
            }
        }
    }
    chain_keeps(
        step,
        from,
        64,
        Publishing { audio: w.audio, published, expected },
        Seq::empty(),
        |now: Publishing<S>, i: int| counted(v, request, now, i),
    );
}

/// Beginning a block leaves the transport where it is, or puts it back at the start.
pub proof fn beginning_moves_back<S>(
    v: EngineView<S>,
    faded: bool,
    frames: int,
    input_frames: int,
    w: EngineView<S>,
    events: Seq<Event>,
)
    requires
        begins_block(v, faded, frames, input_frames, w, events),
    ensures
        w.position == v.position || w.position.0 == 0,
{
    let (audio, mid, first, second) = block_steps(
        v,
        faded,
        frames,
        input_frames,
        w,
        events,
    );
    let from = EngineView { audio, ..v };
    let (messages, taken, complete) = choose|
        messages: Seq<LoadMessage<S>>,
        taken: AudioView<S>,
        complete: bool,
    |
        #[trigger] takes_in(from.audio, messages, taken, complete) && {
            let begun = arrived(from, messages, taken);
            if complete {
                settles_load(begun, mid, first)
            } else {
                mid == begun && first == Seq::<Event>::empty()
            }
        };
    if complete {
        let begun = arrived(from, messages, taken);
        if load_cost(taken) <= taken.pool.capacity {
            let made = choose|made: Seq<Event>| #[trigger]
                commits(begun, mid, made) && first == made + changes(
                    begun.session,
                    mid.session,
                    64,
                );
            committing_counts_nothing(begun, mid, made);
        }
    }
    match mid.pending {
        Some(action) if faded => {
            let ready = EngineView { pending: None, ..mid };
            let made = choose|made: Seq<Event>|
                #[trigger] performs(ready, action, w, made) && second == made + changes(
                    mid.session,
                    w.session,
                    64,
                );
            let moved = EngineView { silenced: ready.silenced, ..w };
            match action {
                Deferred::Rewind => rewinding_counts_nothing(ready, moved, made),
                Deferred::ClearAll => clearing_counts_nothing(ready, moved, made),
                Deferred::Pause => {},
            }
        },
        _ => {},
    }
}

/// Where a block ends makes no difference to what is scheduled: from anywhere inside a run no
/// beat and no click is due, and the run ends where it would have.
pub proof fn a_block_may_end_anywhere<S>(v: EngineView<S>, w: EngineView<S>, frames: int)
    requires
        v.wf(),
        0 < clicks(v),
        0 < frames < run_end(v) - v.position.0,
        run_end(v) <= u64::MAX,
        w == (EngineView {
            position: Frames((v.position.0 + frames) as u64),
            click: v.click.played(frames),
            ..v
        }),
    ensures
        !on_new_beat(w),
        tone_at(w) is None,
        run_end(w) == run_end(v),
        forall|rest: int|
            0 <= rest ==> #[trigger] w.click.played(rest) == v.click.played(frames + rest),
{
    let from = v.position.0 as int;
    nothing_between_cuts(v.grid, from, v.grid.beats(), from + frames);
    nothing_between_cuts(v.grid, from, clicks(v), from + frames);
}

/// A take that is finished while nobody else is found to be reading its clip is sealed at its
/// length, stamped as having started before it did by the round trip, numbered and reported.
pub proof fn a_finished_take_is_sealed<S>(
    v: AudioView<S>,
    addr: SlotAddr,
    id: ClipId,
    started_at: Frames,
    at: Frames,
    alone: bool,
    w: AudioView<S>,
    events: Seq<Event>,
)
    requires
        v.wf(),
        addr.wf(),
        v.recordings[addr.place()] is Some,
        v.recordings[addr.place()]->Some_0.tail_until is None,
        v.clips[addr.place()] is Some,
        applied(
            v,
            addr,
            Effect::FinishCapture { clip: id, started_at, at },
            alone,
            w,
            events,
        ),
        w.asked == v.asked.push(true),
    ensures
        w.clips[addr.place()] is Some,
        ({
            let take = w.clips[addr.place()]->Some_0;
            let len = less(at.0 as int, started_at.0 as int);
            &&& take.len == len
            &&& take.recorded_at == less(started_at.0 as int, v.capture_offset.0 as int)
            &&& take.capture_offset == v.capture_offset.0
            &&& take.buffer == v.clips[addr.place()]->Some_0.buffer
            &&& events == seq![
                Event::ClipRecorded { addr, clip: id, len: Frames(len as u64) },
            ]
        }),
        w.next_clip_id.0 == (id.0 + 1) % 0x1_0000_0000,
{
    places_are_addresses(addr, 0);
    assert(v.asked.push(alone).last() == alone);
    assert(w.asked.last());
}

/// A take is put back where it was played: what was captured so many frames after the round trip
/// plays when the transport is where it was played, in every pass of the loop. A take that began
/// before a whole round trip had passed can only be put back to the start.
pub proof fn takes_play_where_they_were_played<S>(
    clip: ClipView<S>,
    started_at: int,
    at: int,
    offset: int,
    position: int,
)
    requires
        0 <= offset <= started_at < at,
    ensures
        ({
            let take = sealed(clip, started_at, at, offset);
            take.phase(take.recorded_at, position) == (position + offset - started_at) % take.len
        }),
{
}

/// The longest loop is as long as any, and there is one as soon as any pad has a loop.
pub proof fn the_longest_is_longest<S>(clips: Seq<Option<ClipView<S>>>, to: int)
    requires
        0 <= to <= clips.len(),
    ensures
        ({
            let best = longest(clips, to);
            &&& best < to
            &&& best >= 0 ==> clips[best] is Some && clips[best]->Some_0.len > 0
            &&& forall|place: int|
                0 <= place < to && (#[trigger] clips[place]) is Some && clips[place]->Some_0.len > 0
                    ==> best >= 0 && clips[place]->Some_0.len <= clips[best]->Some_0.len
        }),
    decreases to,
{
    if to > 0 {
        the_longest_is_longest(clips, to - 1);
    }
}

/// Going back to the start keeps the loops where they were against each other: every loop plays
/// from the transport's start on what it played from one and the same position on before. That
/// holds of each loop that nobody else was found to be reading, and of each that sounds from
/// where it was launched.
pub proof fn a_rewind_keeps_loops_together<S>(
    v: AudioView<S>,
    states: Seq<SlotState>,
    alone: Seq<bool>,
    w: AudioView<S>,
    place: int,
    position: int,
)
    requires
        v.wf(),
        clips_rewound(v, states, alone, w),
        0 <= place < 64,
        v.clips[place] is Some,
        v.clips[place]->Some_0.len > 0,
        alone[place] || v.anchors[place] is Some && states[place].sounding(),
        v.clips[place]->Some_0.len <= u64::MAX,
    ensures
        ({
            let clip = v.clips[place]->Some_0;
            &&& w.clips[place] is Some
            &&& w.clips[place]->Some_0.len == clip.len
            &&& clip.phase(anchored_at(w, states, place), position) == clip.phase(
                anchored_at(v, states, place),
                position + rewind_shift(v, states),
            )
        }),
{
    let clip = v.clips[place]->Some_0;
    let by = rewind_shift(v, states);
    let from = anchored_at(v, states, place);
    let n = clip.len;
    let to = moved_back(from, n, by);
    lemma_mod_bound(from - by, n);
    assert(anchored_at(w, states, place) == to);
    // The anchor moved by `by`, give or take whole passes of the loop.
    lemma_fundamental_div_mod(from - by, n);
    let passes = (from - by) / n;
    lemma_mod_multiples_vanish(passes, position + by - from, n);
    assert(n * passes + (position + by - from) == position - to) by (nonlinear_arith)
        requires
            from - by == n * passes + to,
    ;
}

/// Going back to the start puts the longest loop at its beginning: what plays on the transport's
/// first frame was captured a round trip after the beat the take began on.
pub proof fn a_rewind_starts_the_longest_loop<S>(
    v: AudioView<S>,
    states: Seq<SlotState>,
    alone: Seq<bool>,
    w: AudioView<S>,
)
    requires
        v.wf(),
        clips_rewound(v, states, alone, w),
        longest(v.clips, 64) >= 0,
        ({
            let place = longest(v.clips, 64);
            alone[place] || v.anchors[place] is Some && states[place].sounding()
        }),
        v.clips[longest(v.clips, 64)]->Some_0.len <= u64::MAX,
    ensures
        ({
            let place = longest(v.clips, 64);
            let clip = v.clips[place]->Some_0;
            clip.phase(anchored_at(w, states, place), 0) == clip.capture_offset % clip.len
        }),
{
    the_longest_is_longest(v.clips, 64);
    a_rewind_keeps_loops_together(v, states, alone, w, longest(v.clips, 64), 0);
}

/// The anchor of a clip recorded from the transport's start puts the beat its take began on onto
/// the transport's first frame, and is where going back to the start puts the longest loop.
pub proof fn a_rewound_loop_starts_on_its_beat<S>(clip: ClipView<S>, anchor: int, offset: int)
    requires
        0 < clip.len,
        0 <= offset,
    ensures
        0 <= start_anchor(clip.len, offset) < clip.len,
        clip.phase(start_anchor(clip.len, offset), 0) == offset % clip.len,
        moved_back(anchor, clip.len, anchor + offset) == start_anchor(clip.len, offset),
{
    let len = clip.len;
    let late = offset % len;
    lemma_mod_bound(offset, len);
    lemma_mod_bound(len - late, len);
    lemma_fundamental_div_mod(offset, len);
    let passes = offset / len;
    assert(-offset == len * (-passes) - late) by (nonlinear_arith)
        requires
            offset == len * passes + late,
    ;
    lemma_mod_multiples_vanish(-passes, -late, len);
    lemma_mod_multiples_vanish(1, -late, len);
    if late == 0 {
        lemma_mod_self_0(len);
        lemma_small_mod(0, len as nat);
    } else {
        lemma_small_mod((len - late) as nat, len as nat);
        lemma_mod_add_multiples_vanish(late - len, len);
        lemma_small_mod(late as nat, len as nat);
        assert((late - len) % len == late) by {
            lemma_mod_add_multiples_vanish(late - len, len);
        }
    }
}

/// A restarted loop lands on the beat it was launched on: what plays there was captured a round
/// trip after the beat the take began on.
pub proof fn a_restart_lands_on_its_beat<S>(v: AudioView<S>, addr: SlotAddr, at: Frames)
    requires
        v.wf(),
        addr.wf(),
        v.clips[addr.place()] is Some,
        v.launch_modes[addr.track.num()] is Restart,
        v.clips[addr.place()]->Some_0.len > 0,
        0 <= v.clips[addr.place()]->Some_0.capture_offset <= at.0,
    ensures
        ({
            let clip = v.clips[addr.place()]->Some_0;
            let anchor = launched(v, addr, at).anchors[addr.place()];
            anchor is Some && clip.phase(anchor->Some_0.0 as int, at.0 as int)
                == clip.capture_offset % clip.len
        }),
{
    places_are_addresses(addr, 0);
}

} // verus!
