//! What the engine's moves come to, said of what was asked for and of what is heard.

use vstd::arithmetic::div_mod::*;
use vstd::prelude::*;

use crate::audio::AudioView;
use crate::chain::{chain_keeps_told, chained};
use crate::click::{blips_last_their_milliseconds, silent, Tone};
use crate::clip::ClipView;
use crate::command::Command;
use crate::event::Event;
use crate::gain::ladder;
use crate::grid::{
    cut_at, cut_brackets, cut_offset, cuts_climb, rebasing_keeps_the_bar,
    rebasing_keeps_the_place_in_the_bar, ticks_climb, BarGrid,
};
use crate::ids::{holds_place, places_are_addresses, SlotAddr};
use crate::load::LoadMessage;
use crate::mixer::Sound;
use crate::process::{
    blip_sound, clipped, opened, pad_sound, processes, run_sounds, runs, runs_on, runs_out,
    Rendered,
};
use crate::promises::{
    a_run_moves_by_its_length, addressed, beginning_counts_nothing, beginning_moves_back,
    block_steps, no_changes, starting_keeps_place, the_longest_is_longest,
};
use crate::session::{always, busy_elsewhere, swept};
use crate::settings::Settings;
use crate::slot::{SlotInput, SlotState};
use crate::time::{Tempo, TimeSignature, CLOCK_TICKS_PER_QUARTER};
use crate::transport::{
    advances, arrived, beat_report, begins_block, can_handle, can_retime, changes, clicks,
    clock_at, commanded, commit_step, commits, finishes_run, handled, lands, load_cost, longest, measurable,
    measures, on_new_beat, performs, reaches_boundary, refusal_step,
    refusals_settle, regridded,
    regridded_at_start, reports_clock, rewinds, session_moves, sets_paused, settles_load,
    starts_run, tail_length, takes_in, tone_at, Deferred, EngineView, Run,
};

verus! {

/// Whether a position is on one of a number of equal cuts of its bar: some whole number of cuts
/// into it, to the frame.
pub open spec fn falls_on(grid: BarGrid, position: int, cuts: int) -> bool {
    exists|cut: int|
        0 <= cut < cuts && position % grid.bar() == #[trigger] cut_offset(grid.bar(), cut, cuts)
}

/// Looking for the last cut at or before a position finds one that is on it, where there is one.
proof fn cuts_are_found(grid: BarGrid, position: int, cuts: int)
    requires
        grid.wf(),
        0 <= position,
        0 < cuts,
    ensures
        grid.is_cut(position, cuts) <==> falls_on(grid, position, cuts),
{
    let bar = grid.bar();
    let into = position % bar;
    lemma_mod_bound(position, bar);
    cut_brackets(bar, into, cuts);
    let found = cut_at(bar, into, cuts);
    if falls_on(grid, position, cuts) {
        let cut = choose|cut: int|
            0 <= cut < cuts && into == #[trigger] cut_offset(bar, cut, cuts);
        if cut > found {
            cuts_climb(bar, found + 1, cut, cuts);
        } else {
            cuts_climb(bar, cut, found, cuts);
        }
    }
}

/// Where a bar has a frame for every beat, its first beat begins on its first frame and on no
/// other.
proof fn first_beat_is_first(bar: int, into: int, beats: int)
    requires
        0 <= into < bar,
        0 < beats <= bar,
    ensures
        cut_offset(bar, cut_at(bar, into, beats), beats) == into ==> (cut_at(bar, into, beats) == 0
            <==> into == 0),
{
    cut_brackets(bar, into, beats);
    let found = cut_at(bar, into, beats);
    if into == 0 && found > 0 {
        cuts_climb(bar, 1, found, beats);
        assert(bar * 1 / beats >= 1) by (nonlinear_arith)
            requires
                0 < beats <= bar,
        ;
    }
}

/// The click tells where in the bar the transport is. Turned on, a run starts with the accent on
/// a bar line and nowhere else, with the beat's blip on any other beat the clicks fall on, with
/// the one between beats where a click falls off the beat, and with none where no click falls.
/// Turned off, nothing sounds. The bar has a frame for every beat at least.
pub proof fn the_click_tells_the_bar<S>(
    v: EngineView<S>,
    left: int,
    w: EngineView<S>,
    events: Seq<Event>,
    run: Run,
)
    requires
        v.wf(),
        v.grid.beats() <= v.grid.bar(),
        0 < clicks(v),
        starts_run(v, left, w, events, run),
    ensures
        !v.click.on() ==> run.tone is None,
        v.click.on() ==> {
            let position = v.position.0 as int;
            let first = position % v.grid.bar() == 0;
            let beat = falls_on(v.grid, position, v.grid.beats());
            let click = falls_on(v.grid, position, clicks(v));
            &&& run.tone == Some(Tone::Accent) <==> first
            &&& run.tone == Some(Tone::Beat) <==> !first && beat && click
            &&& run.tone == Some(Tone::Sub) <==> !beat && click
            &&& run.tone is None <==> !click
        },
{
    let position = v.position.0 as int;
    let bar = v.grid.bar();
    let into = position % bar;
    lemma_mod_bound(position, bar);
    cuts_are_found(v.grid, position, v.grid.beats());
    cuts_are_found(v.grid, position, clicks(v));
    first_beat_is_first(bar, into, v.grid.beats());
    cut_brackets(bar, into, clicks(v));
    cut_brackets(bar, into, v.grid.beats());
    if into == 0 {
        assert(cut_offset(bar, 0, clicks(v)) == into);
        assert(cut_offset(bar, 0, v.grid.beats()) == into);
    }
}

/// Settings are taken as a whole: every track has the gain, the input, the launch mode and the
/// pickup it was given, the masks are those that were given, and nothing else changes. Nothing is
/// reported.
pub proof fn settings_are_taken_whole<S>(
    v: EngineView<S>,
    settings: Settings,
    w: EngineView<S>,
    events: Seq<Event>,
)
    requires
        handled(v, Command::SetSettings(settings), w, events),
    ensures
        events == Seq::<Event>::empty(),
        forall|track: int|
            #![trigger w.gains[track]]
            #![trigger w.audio.inputs[track]]
            #![trigger w.audio.launch_modes[track]]
            #![trigger w.audio.pickups[track]]
            0 <= track < 8 ==> {
                &&& w.gains[track] == settings.gains@[track]
                &&& w.audio.inputs[track] == settings.inputs@[track]
                &&& w.audio.launch_modes[track] == settings.launch_modes@[track]
                &&& w.audio.pickups[track] == settings.pickups@[track]
            },
        w.muted == settings.muted,
        w.soloed == settings.soloed,
        w.grid == v.grid,
        w.position == v.position,
        w.session == v.session,
        w.click == v.click,
        w.subdivision == v.subdivision,
        w.paused == v.paused,
        w.pending == v.pending,
        w.clock_total == v.clock_total,
        w.last_clock == v.last_clock,
        w.last_boundary == v.last_boundary,
        w.audio.clips == v.audio.clips,
        w.audio.anchors == v.audio.anchors,
        w.audio.recordings == v.audio.recordings,
        w.audio.capture_offset == v.audio.capture_offset,
        w.audio.pool == v.audio.pool,
        w.audio.shells == v.audio.shells,
        w.audio.staged == v.audio.staged,
        w.audio.next_clip_id == v.audio.next_clip_id,
{
    let first = choose|first: Seq<Event>| #[trigger]
        commanded(v, Command::SetSettings(settings), w, first) && events == first + changes(
            v.session,
            w.session,
            64,
        );
    no_changes(v.session, 64);
    assert(first + Seq::<Event>::empty() =~= first);
}

/// Settings are heard from the next run on. What every pad plays opens from the tail for the beats
/// its track was given, to the frame; and a pad that sounds, with no move of the transport waiting,
/// heads for its track's gain if it is not muted and nothing else is soloed over it, and for
/// silence otherwise.
pub proof fn settings_are_heard<S>(
    v: EngineView<S>,
    settings: Settings,
    w: EngineView<S>,
    events: Seq<Event>,
    track: int,
    slot: int,
    offset: int,
    frames: int,
)
    requires
        v.wf(),
        handled(v, Command::SetSettings(settings), w, events),
        0 <= track < 8,
        0 <= slot < 8,
    ensures
        match pad_sound(w, track * 8 + slot, offset, frames) {
            Sound::Pad {
                addr,
                target,
                clip,
                anchor: _,
                pickup,
                position,
                declick: _,
                offset: at,
                frames: long,
            } => {
                let place = track * 8 + slot;
                let heard = !holds_place(settings.muted, place) && (settings.soloed == 0
                    || holds_place(settings.soloed, place));
                &&& addr.track.num() == track
                &&& addr.slot.num() == slot
                &&& pickup.0 * v.grid.beats() <= v.grid.bar() * settings.pickups@[track]
                &&& v.grid.bar() * settings.pickups@[track] < (pickup.0 + 1) * v.grid.beats()
                &&& target == (if v.pending is None && v.session[place].sounding() && heard {
                    ladder(settings.gains@[track] as int)
                } else {
                    0
                })
                &&& clip == v.audio.clips[place]
                &&& position == v.position
                &&& at == offset
                &&& long == frames
            },
            _ => false,
        },
{
    settings_are_taken_whole(v, settings, w, events);
    let place = track * 8 + slot;
    let addr = SlotAddr::at(place);
    places_are_addresses(addr, place);
    let bar = v.grid.bar();
    let beats = v.grid.beats();
    let pickup = settings.pickups@[track] as int;
    let at = cut_offset(bar, pickup, beats);
    lemma_fundamental_div_mod(bar * pickup, beats);
    lemma_mod_bound(bar * pickup, beats);
    assert(0 <= bar * pickup <= 0xffff_ffff * 255) by (nonlinear_arith)
        requires
            0 <= bar <= 0xffff_ffff,
            0 <= pickup <= 255,
    ;
    assert(at * beats <= bar * pickup < (at + 1) * beats && 0 <= at <= bar * pickup)
        by (nonlinear_arith)
        requires
            bar * pickup == beats * at + (bar * pickup) % beats,
            0 <= (bar * pickup) % beats < beats,
            0 <= bar * pickup,
            0 < beats,
    ;
}

/// Whether the clock was last read where the transport stands.
pub open spec fn in_step<S>(v: EngineView<S>) -> bool {
    v.last_clock == clock_at(v.grid, v.position.0 as int)
}

/// A count after so many more, no further than can be counted.
pub open spec fn counted_on(count: int, more: int) -> int {
    if count + more <= u64::MAX {
        count + more
    } else {
        u64::MAX as int
    }
}

/// Going back to the start reads the clock there.
proof fn rewinding_stays_in_step<S>(v: EngineView<S>, w: EngineView<S>, events: Seq<Event>)
    requires
        rewinds(v, w, events),
    ensures
        in_step(w),
        w.clock_total == v.clock_total,
{
}

/// A transport move that lands keeps the clock in step.
proof fn performing_stays_in_step<S>(
    v: EngineView<S>,
    action: Deferred,
    w: EngineView<S>,
    events: Seq<Event>,
)
    requires
        in_step(v),
        performs(v, action, w, events),
    ensures
        in_step(w),
        w.clock_total == v.clock_total,
{
    let moved = EngineView { silenced: v.silenced, ..w };
    match action {
        Deferred::Rewind => rewinding_stays_in_step(v, moved, events),
        Deferred::ClearAll => {
            let (mid, first, second) = choose|
                mid: EngineView<S>,
                first: Seq<Event>,
                second: Seq<Event>,
            |
                session_moves(
                    v,
                    Seq::new(64, |i: int| SlotState::Empty),
                    swept(v.session, always(SlotInput::Clear), v.moment(), 0, 64),
                    mid,
                    first,
                ) && #[trigger] rewinds(mid, moved, second) && events == #[trigger] (first
                    + second);
            rewinding_stays_in_step(mid, moved, second);
        },
        Deferred::Pause => {},
    }
}

/// The clock is in step when a block has begun, whatever came back, arrived or landed, and no tick
/// is counted for it.
proof fn beginning_stays_in_step<S>(
    v: EngineView<S>,
    faded: bool,
    frames: int,
    input_frames: int,
    w: EngineView<S>,
    events: Seq<Event>,
)
    requires
        in_step(v),
        begins_block(v, faded, frames, input_frames, w, events),
    ensures
        in_step(w),
        w.clock_total == v.clock_total,
{
    beginning_counts_nothing(v, faded, frames, input_frames, w, events);
    let (audio, mid, first, second) = block_steps(v, faded, frames, input_frames, w, events);
    let from = EngineView { audio, ..v };
    let (messages, taken, complete) = choose|
        messages: Seq<LoadMessage<S>>,
        taken: AudioView<S>,
        complete: bool,
    |
        #[trigger] takes_in(from.audio, messages, taken, complete) && {
            let begun = arrived(from, messages, taken);
            if complete {
                settles_load(begun, mid, first)
            } else {
                mid == begun && first == Seq::<Event>::empty()
            }
        };
    if complete {
        let begun = arrived(from, messages, taken);
        if load_cost(taken) <= taken.pool.capacity {
            let made = choose|made: Seq<Event>| #[trigger]
                commits(begun, mid, made) && first == made + changes(
                    begun.session,
                    mid.session,
                    64,
                );
            let (placed, told) = choose|placed: EngineView<S>, told: Seq<Event>|
                chained(commit_step(), begun, 64, placed, Seq::empty()) && #[trigger] rewinds(
                    regridded_at_start(placed),
                    mid,
                    told,
                );
            rewinding_stays_in_step(regridded_at_start(placed), mid, told);
        }
    }
    assert(in_step(mid));
    match mid.pending {
        Some(action) if faded => {
            let ready = EngineView { pending: None, ..mid };
            let made = choose|made: Seq<Event>|
                #[trigger] performs(ready, action, w, made) && second == made + changes(
                    mid.session,
                    w.session,
                    64,
                );
            performing_stays_in_step(ready, action, w, made);
        },
        _ => {},
    }
}

/// Runs are played without reading the clock.
proof fn runs_read_no_clock<S>(
    from: Rendered<S>,
    input: Seq<S>,
    total: int,
    count: int,
    to: Rendered<S>,
)
    requires
        runs(from, input, total, count, to),
        from.done == 0,
        0 <= total,
        from.engine.position.0 + total <= u64::MAX,
    ensures
        0 <= to.done <= total,
        to.engine.position.0 == from.engine.position.0 + to.done,
        to.engine.paused == from.engine.paused,
        to.engine.grid == from.engine.grid,
        to.engine.last_clock == from.engine.last_clock,
        to.engine.clock_total == from.engine.clock_total,
    decreases count,
{
    if count > 0 {
        let mid = choose|mid: Rendered<S>| #[trigger]
            runs_on(mid, input, total, to) && runs(from, input, total, count - 1, mid);
        runs_read_no_clock(from, input, total, count - 1, mid);
        let (begun, first, second, run) = choose|
            begun: EngineView<S>,
            first: Seq<Event>,
            second: Seq<Event>,
            run: Run,
        |
            #![trigger starts_run(mid.engine, total - mid.done, begun, first, run), finishes_run(begun, input, mid.done, run.frames as int, to.engine, second)]
            starts_run(mid.engine, total - mid.done, begun, first, run) && finishes_run(
                begun,
                input,
                mid.done,
                run.frames as int,
                to.engine,
                second,
            ) && to.done == mid.done + run.frames;
        starting_keeps_place(mid.engine, EngineView { click: mid.engine.click, ..begun }, first);
        a_run_moves_by_its_length(begun, input, mid.done, run.frames as int, to.engine, second);
    }
}

/// Reading the clock adds the ticks since it was last read, and tells the count if there are any.
pub proof fn reading_the_clock_adds_the_ticks<S>(
    v: EngineView<S>,
    start: int,
    w: EngineView<S>,
    events: Seq<Event>,
)
    requires
        v.grid.wf(),
        0 <= start <= v.position.0,
        v.last_clock == clock_at(v.grid, start),
        v.grid.ticks(v.position.0 as int) <= u64::MAX,
        reports_clock(v, w, events),
    ensures
        in_step(w),
        w.grid == v.grid,
        w.position == v.position,
        w.paused == v.paused,
        w.clock_total == counted_on(
            v.clock_total as int,
            v.grid.ticks(v.position.0 as int) - v.grid.ticks(start),
        ),
        events == (if v.grid.ticks(v.position.0 as int) > v.grid.ticks(start) {
            seq![Event::Clock { total: w.clock_total }]
        } else {
            Seq::<Event>::empty()
        }),
{
    ticks_climb(v.grid, start, v.position.0 as int);
    ticks_climb(v.grid, 0, start);
    no_ticks_at_first(v.grid);
}

/// No tick has passed where the transport starts.
pub(crate) proof fn no_ticks_at_first(grid: BarGrid)
    requires
        grid.wf(),
    ensures
        grid.ticks(0) == 0,
{
    let divisor = grid.signature_at().unit() * grid.bar();
    assert(divisor > 0) by (nonlinear_arith)
        requires
            divisor == grid.signature_at().unit() * grid.bar(),
            grid.signature_at().unit() > 0,
            grid.bar() > 0,
    ;
    assert(0 * (CLOCK_TICKS_PER_QUARTER * (grid.beats() * 4)) == 0);
    lemma_div_basics(divisor);
}

/// The clock counts what was played. A block of a running transport adds the ticks the grid has
/// between where its frames began and where they ended, and a frozen one adds none. What is added
/// is told, as the whole count. The clock stays in step through it.
pub proof fn the_clock_counts_what_was_played<S>(
    v: EngineView<S>,
    faded: bool,
    input: Seq<S>,
    frames: int,
    held: u32,
    to: Rendered<S>,
)
    requires
        v.wf(),
        to.engine.grid.wf(),
        in_step(v),
        processes(v, faded, input, frames, held, to),
        0 <= frames,
        v.position.0 + frames <= u64::MAX,
        to.engine.grid.ticks(to.engine.position.0 as int) <= u64::MAX,
    ensures
        in_step(to.engine),
        to.engine.paused ==> to.engine.clock_total == v.clock_total,
        !to.engine.paused ==> ({
            let end = to.engine.position.0 as int;
            let grid = to.engine.grid;
            &&& frames <= end
            &&& to.engine.clock_total == counted_on(
                v.clock_total as int,
                grid.ticks(end) - grid.ticks(end - frames),
            )
        }),
        to.engine.clock_total > v.clock_total ==> to.events.len() > 0 && to.events.last()
            == (Event::Clock { total: to.engine.clock_total }),
{
    let input_frames = input.len() as int / v.capture_channels;
    let (begun, first) = choose|begun: EngineView<S>, first: Seq<Event>| #[trigger]
        begins_block(v, faded, frames, input_frames, begun, first) && if begun.paused {
            to == opened(begun, faded, first)
        } else {
            runs_out(opened(begun, faded, first), input, frames, held, to)
        };
    beginning_moves_back(v, faded, frames, input_frames, begun, first);
    beginning_stays_in_step(v, faded, frames, input_frames, begun, first);
    if !begun.paused {
        let from = opened(begun, faded, first);
        let (count, mid, last) = choose|count: int, mid: Rendered<S>, last: Seq<Event>|
            #![trigger runs(from, input, frames, count, mid), reports_clock(mid.engine, to.engine, last)]
            runs(from, input, frames, count, mid) && mid.done == frames && reports_clock(
                mid.engine,
                to.engine,
                last,
            ) && to.done == frames && to.events == mid.events + clipped(held) + last && to.sounds
                == mid.sounds.push(Sound::Limit(held));
        runs_read_no_clock(from, input, frames, count, mid);
        reading_the_clock_adds_the_ticks(
            mid.engine,
            begun.position.0 as int,
            to.engine,
            last,
        );
        assert(to.engine.position.0 - frames == begun.position.0);
        if last.len() > 0 {
            assert(to.events.last() == last.last());
        }
    }
}

/// An instruction counts no tick, and keeps the clock in step.
pub proof fn instructions_count_no_tick<S>(
    v: EngineView<S>,
    command: Command,
    w: EngineView<S>,
    events: Seq<Event>,
)
    requires
        v.wf(),
        in_step(v),
        can_handle(v, command),
        handled(v, command, w, events),
    ensures
        in_step(w),
        w.clock_total == v.clock_total,
{
    let first = choose|first: Seq<Event>| #[trigger]
        commanded(v, command, w, first) && events == first + changes(v.session, w.session, 64);
    match command {
        Command::ClearAll => {
            if v.declick == 0 {
                performing_stays_in_step(v, Deferred::ClearAll, w, first);
            }
        },
        Command::Rewind => {
            if v.declick == 0 {
                performing_stays_in_step(v, Deferred::Rewind, w, first);
            }
        },
        Command::SetPaused(paused) => {
            if v.declick == 0 && paused && !v.paused && v.pending != Some(Deferred::Pause) {
                performing_stays_in_step(v, Deferred::Pause, w, first);
            }
        },
        Command::SetTempo(tempo) => {
            if w != v {
                retiming_stays_in_step(v, tempo, v.time_signature, w);
            }
        },
        Command::SetTimeSignature(signature) => {
            if w != v {
                retiming_stays_in_step(v, v.grid.tempo_at(), signature, w);
            }
        },
        _ => {},
    }
}

/// A change of musical time that is taken reads the clock where the transport comes to stand.
proof fn retiming_stays_in_step<S>(
    v: EngineView<S>,
    tempo: Tempo,
    signature: TimeSignature,
    w: EngineView<S>,
)
    requires
        v.wf(),
        can_retime(v, tempo, signature),
        exists|grid: BarGrid|
            #[trigger] measures(grid, v.sample_rate, tempo, signature) && w == regridded(v, grid),
    ensures
        in_step(w),
{
    let grid = choose|grid: BarGrid|
        #[trigger] measures(grid, v.sample_rate, tempo, signature) && w == regridded(v, grid);
    let bar = v.grid.bar();
    let position = v.position.0 as int;
    lemma_mod_bound(position, bar);
    lemma_div_pos_is_pos(position, bar);
    assert(0 <= (position % bar) * grid.bar() && 0 <= (position / bar) * grid.bar())
        by (nonlinear_arith)
        requires
            0 <= position % bar,
            0 <= position / bar,
            0 < grid.bar(),
    ;
    lemma_div_pos_is_pos((position % bar) * grid.bar(), bar);
    assert(0 <= v.grid.rebased(position, grid));
}

/// One step of playing on: a block that moves the transport by its own frames, or holds it where
/// it is frozen, or an instruction that leaves the transport where it is. The grid stays.
pub open spec fn plays_on<S>(v: EngineView<S>, w: EngineView<S>) -> bool {
    &&& w.grid == v.grid
    &&& {
        ||| exists|faded: bool, input: Seq<S>, frames: int, held: u32, to: Rendered<S>|
            #[trigger] processes(v, faded, input, frames, held, to) && to.engine == w && 0 <= frames
                && v.position.0 + frames <= u64::MAX && w.position.0 == v.position.0 + (
            if w.paused {
                0
            } else {
                frames
            })
        ||| exists|command: Command, events: Seq<Event>| #[trigger]
            handled(v, command, w, events) && can_handle(v, command) && w.position == v.position
    }
}

/// One step of playing on adds the ticks between where the transport was and where it is.
proof fn playing_on_counts<S>(v: EngineView<S>, w: EngineView<S>)
    requires
        v.wf(),
        w.wf(),
        in_step(v),
        plays_on(v, w),
        w.grid.ticks(w.position.0 as int) <= u64::MAX,
    ensures
        in_step(w),
        v.position.0 <= w.position.0,
        w.clock_total == counted_on(
            v.clock_total as int,
            v.grid.ticks(w.position.0 as int) - v.grid.ticks(v.position.0 as int),
        ),
{
    if exists|command: Command, events: Seq<Event>| #[trigger]
        handled(v, command, w, events) && can_handle(v, command) && w.position == v.position {
        let (command, events) = choose|command: Command, events: Seq<Event>| #[trigger]
            handled(v, command, w, events) && can_handle(v, command) && w.position == v.position;
        instructions_count_no_tick(v, command, w, events);
    } else {
        let (faded, input, frames, held, to) = choose|
            faded: bool,
            input: Seq<S>,
            frames: int,
            held: u32,
            to: Rendered<S>,
        |
            #[trigger] processes(v, faded, input, frames, held, to) && to.engine == w && 0 <= frames
                && v.position.0 + frames <= u64::MAX && w.position.0 == v.position.0 + (
            if w.paused {
                0
            } else {
                frames
            });
        the_clock_counts_what_was_played(v, faded, input, frames, held, to);
        assert(!w.paused ==> w.position.0 - frames == v.position.0);
    }
}

/// Over any stretch of playing, in blocks of any size and with instructions in between, as long as
/// nothing moves the transport to another place or another grid, the clock grows by exactly the
/// ticks between where the stretch began and where it ended.
pub proof fn the_clock_keeps_time<S>(states: Seq<EngineView<S>>)
    requires
        states.len() > 0,
        in_step(states[0]),
        forall|i: int| 0 <= i < states.len() ==> (#[trigger] states[i]).wf(),
        forall|i: int|
            #![trigger states[i]]
            0 < i < states.len() ==> plays_on(states[i - 1], states[i]),
        states[0].grid.ticks(states.last().position.0 as int) <= u64::MAX,
    ensures
        states.last().grid == states[0].grid,
        states[0].position.0 <= states.last().position.0,
        in_step(states.last()),
        states.last().clock_total == counted_on(
            states[0].clock_total as int,
            states[0].grid.ticks(states.last().position.0 as int) - states[0].grid.ticks(
                states[0].position.0 as int,
            ),
        ),
    decreases states.len(),
{
    if states.len() > 1 {
        let before = states.drop_last();
        let v = before.last();
        let w = states.last();
        assert(states[states.len() - 1] == w);
        assert(plays_on(v, w));
        stretches_move_on(states);
        assert forall|i: int| 0 <= i < before.len() implies (#[trigger] before[i]).wf() by {
            assert(before[i] == states[i]);
        }
        assert forall|i: int|
            #![trigger before[i]]
            0 < i < before.len() implies plays_on(before[i - 1], before[i]) by {
            assert(before[i] == states[i]);
        }
        ticks_climb(states[0].grid, v.position.0 as int, w.position.0 as int);
        the_clock_keeps_time(before);
        playing_on_counts(v, w);
        ticks_climb(states[0].grid, states[0].position.0 as int, v.position.0 as int);
    }
}

/// A stretch of playing stays on its grid and never goes back.
proof fn stretches_move_on<S>(states: Seq<EngineView<S>>)
    requires
        states.len() > 1,
        forall|i: int|
            #![trigger states[i]]
            0 < i < states.len() ==> plays_on(states[i - 1], states[i]),
    ensures
        states.last().grid == states[0].grid,
        states.drop_last().last().grid == states[0].grid,
        states.drop_last().last().position.0 <= states.last().position.0,
    decreases states.len(),
{
    let before = states.drop_last();
    assert(states[states.len() - 1] == states.last());
    assert(plays_on(before.last(), states.last()));
    if before.len() > 1 {
        assert forall|i: int|
            #![trigger before[i]]
            0 < i < before.len() implies plays_on(before[i - 1], before[i]) by {
            assert(before[i] == states[i]);
        }
        stretches_move_on(before);
    }
}

/// A bar carries twenty-four ticks for each of its quarter notes, from wherever in it the count
/// starts: ninety-six in four four. A bar of beats finer than a tick is left out, which carries
/// no whole number of them.
pub proof fn a_bar_carries_its_quarter_notes(grid: BarGrid, position: int, bars: int, ticks: int)
    requires
        grid.wf(),
        0 <= position,
        0 <= bars,
        ticks * grid.signature_at().unit() == 24 * 4 * grid.beats(),
    ensures
        grid.ticks(position + bars * grid.bar()) == grid.ticks(position) + bars * ticks,
        grid.beats() == 4 && grid.signature_at().unit() == 4 ==> grid.ticks(position + grid.bar())
            == grid.ticks(position) + 96,
{
    let unit = grid.signature_at().unit();
    let bar = grid.bar();
    let per = CLOCK_TICKS_PER_QUARTER * (grid.beats() * 4);
    let divisor = unit * bar;
    assert(divisor > 0) by (nonlinear_arith)
        requires
            divisor == unit * bar,
            unit > 0,
            bar > 0,
    ;
    let beats = grid.beats();
    let quarter = CLOCK_TICKS_PER_QUARTER as int;
    assert(quarter == 24);
    assert(per == 24 * 4 * beats) by (nonlinear_arith)
        requires
            per == quarter * (beats * 4),
            quarter == 24,
    ;
    assert((position + bars * bar) * per == position * per + (bars * ticks) * divisor)
        by (nonlinear_arith)
        requires
            per == ticks * unit,
            divisor == unit * bar,
    ;
    lemma_hoist_over_denominator(position * per, bars * ticks, divisor as nat);
    assert((position + bar) * per == position * per + ticks * divisor) by (nonlinear_arith)
        requires
            per == ticks * unit,
            divisor == unit * bar,
    ;
    lemma_hoist_over_denominator(position * per, ticks, divisor as nat);
    if beats == 4 && unit == 4 {
        assert(ticks * 4 == 24 * 4 * 4);
    }
}

/// The beat is told where it falls. On a beat that has not been told yet the first thing told is
/// which it is: on a bar line the bar and then its first beat, and otherwise the beat, whose place
/// in the bar is the transport's to the frame. Anywhere else nothing is told and nothing happens.
/// The bar has a frame for every beat at least.
pub proof fn the_beat_is_told<S>(v: EngineView<S>, w: EngineView<S>, events: Seq<Event>)
    requires
        v.wf(),
        v.grid.beats() <= v.grid.bar(),
        reaches_boundary(v, w, events),
    ensures
        ({
            let position = v.position.0 as int;
            let bar = position / v.grid.bar();
            let due = falls_on(v.grid, position, v.grid.beats()) && v.last_boundary != Some(
                v.position,
            );
            &&& !due ==> w == v && events == Seq::<Event>::empty()
            &&& due && position % v.grid.bar() == 0 ==> {
                &&& events.len() >= 2
                &&& events[0] == (Event::Bar { bar: bar as u64 })
                &&& events[1] == (Event::Beat { bar: bar as u64, beat: 0 })
            }
            &&& due && position % v.grid.bar() != 0 ==> {
                &&& events.len() >= 1
                &&& events[0] matches Event::Beat { bar: b, beat } && b == bar && 0 < beat
                    < v.grid.beats() && cut_offset(v.grid.bar(), beat as int, v.grid.beats())
                    == position % v.grid.bar()
            }
        }),
{
    let position = v.position.0 as int;
    let bar = v.grid.bar();
    let into = position % bar;
    lemma_mod_bound(position, bar);
    lemma_div_pos_is_pos(position, bar);
    assert(position / bar <= position) by (nonlinear_arith)
        requires
            0 <= position,
            0 < bar,
    ;
    cuts_are_found(v.grid, position, v.grid.beats());
    first_beat_is_first(bar, into, v.grid.beats());
    cut_brackets(bar, into, v.grid.beats());
    if on_new_beat(v) {
        let (mid, first, second) = choose|mid: EngineView<S>, first: Seq<Event>, second: Seq<Event>|
            #[trigger] advances(v, mid, first) && #[trigger] refusals_settle(mid, w, second)
                && events == beat_report(v.grid, v.position.0 as int) + first + second + changes(
                v.session,
                w.session,
                64,
            );
        let report = beat_report(v.grid, position);
        assert(events[0] == report[0]);
        if into == 0 {
            assert(events[1] == report[1]);
        }
    }
}

/// A pad's change is told if it changed, with what it is now, and never otherwise. Nothing but the
/// pads' changes is told by it.
pub proof fn every_change_is_told(
    before: Seq<SlotState>,
    after: Seq<SlotState>,
    to: int,
    place: int,
    state: SlotState,
)
    requires
        0 <= to <= 64,
        0 <= place < to,
    ensures
        changes(before, after, to).contains(
            Event::SlotChanged { addr: SlotAddr::at(place), state },
        ) <==> before[place] != after[place] && state == after[place],
        forall|i: int|
            0 <= i < changes(before, after, to).len() ==> (#[trigger] changes(
                before,
                after,
                to,
            )[i]) is SlotChanged,
    decreases to,
{
    let all = changes(before, after, to);
    changes_are_places(before, after, to);
    let rest = changes(before, after, to - 1);
    let told = Event::SlotChanged { addr: SlotAddr::at(place), state };
    if place < to - 1 {
        every_change_is_told(before, after, to - 1, place, state);
    } else {
        changes_are_places(before, after, to - 1);
    }
    places_are_addresses(SlotAddr::at(place), place);
    places_are_addresses(SlotAddr::at(to - 1), to - 1);
    if rest.contains(told) {
        let i = choose|i: int| 0 <= i < rest.len() && rest[i] == told;
        assert(all[i] == told);
    }
    if all.contains(told) {
        let i = choose|i: int| 0 <= i < all.len() && all[i] == told;
        if i < rest.len() {
            assert(rest[i] == told);
            assert(rest.contains(told));
        }
    }
    if place == to - 1 && before[place] != after[place] {
        assert(all.last() == (Event::SlotChanged {
            addr: SlotAddr::at(place),
            state: after[place],
        }));
        assert(all[all.len() - 1] == all.last());
    }
}

/// Changes are told of pads before the place they are told up to.
proof fn changes_are_places(before: Seq<SlotState>, after: Seq<SlotState>, to: int)
    requires
        to <= 64,
    ensures
        forall|i: int|
            0 <= i < changes(before, after, to).len() ==> ((#[trigger] changes(
                before,
                after,
                to,
            )[i]) matches Event::SlotChanged { addr, state } && 0 <= addr.place() < to && state
                == after[addr.place()] && before[addr.place()] != after[addr.place()]),
    decreases to,
{
    if to > 0 {
        changes_are_places(before, after, to - 1);
        places_are_addresses(SlotAddr::at(to - 1), to - 1);
        let rest = changes(before, after, to - 1);
        let all = changes(before, after, to);
        assert forall|i: int| 0 <= i < all.len() implies ((
        #[trigger] all[i]) matches Event::SlotChanged { addr, state } && 0 <= addr.place() < to
            && state == after[addr.place()] && before[addr.place()] != after[addr.place()]) by {
            if i < rest.len() {
                assert(all[i] == rest[i]);
            }
        }
    }
}

/// What an instruction does to the pads, pad by pad. A stop leaves the pads it is for silent, with
/// nothing waiting and nothing captured, and their clips kept; a stop of one track leaves the
/// others as they were. A clear empties its pad alone.
pub proof fn stops_and_clears_reach_their_pads<S>(
    v: EngineView<S>,
    command: Command,
    w: EngineView<S>,
    events: Seq<Event>,
    place: int,
)
    requires
        v.wf(),
        addressed(command),
        handled(v, command, w, events),
        0 <= place < 64,
    ensures
        ({
            let was = v.session[place];
            let now = w.session[place];
            let still = !now.sounding() && !now.recording() && !now.pending() && now.held()
                == was.held();
            &&& command is StopAll ==> still
            &&& command matches Command::StopTrack(track) ==> if place / 8 == track.num() {
                still
            } else {
                now == was
            }
            &&& command matches Command::Clear(addr) ==> if place == addr.place() {
                now is Empty
            } else {
                now == was
            }
        }),
        command is StopAll || command is StopTrack || command is Clear ==> w.position == v.position
            && w.grid == v.grid && w.paused == v.paused && w.click == v.click,
{
    let first = choose|first: Seq<Event>| #[trigger]
        commanded(v, command, w, first) && events == first + changes(v.session, w.session, 64);
    match command {
        Command::Clear(addr) => places_are_addresses(addr, place),
        _ => {},
    }
}

/// A press moves no audio: it tells the pads that changed, and nothing but the pads of its own
/// track changes.
pub proof fn a_press_only_queues<S>(
    v: EngineView<S>,
    addr: SlotAddr,
    w: EngineView<S>,
    events: Seq<Event>,
    place: int,
)
    requires
        v.wf(),
        addr.wf(),
        handled(v, Command::Press(addr), w, events),
        0 <= place < 64,
    ensures
        w == (EngineView { session: w.session, ..v }),
        events == changes(v.session, w.session, 64),
        w.session[place].sounding() == v.session[place].sounding(),
        (w.session[place] is Recording) == (v.session[place] is Recording),
        w.session[place].held() == v.session[place].held(),
        place / 8 != addr.track.num() ==> w.session[place] == v.session[place],
        busy_elsewhere(v.session, addr) ==> w.session == v.session,
        !busy_elsewhere(v.session, addr) ==> w.session[addr.place()] != v.session[addr.place()],
{
    let first = choose|first: Seq<Event>| #[trigger]
        commanded(v, Command::Press(addr), w, first) && events == first + changes(
            v.session,
            w.session,
            64,
        );
    assert(Seq::<Event>::empty() + changes(v.session, w.session, 64) =~= changes(
        v.session,
        w.session,
        64,
    ));
    places_are_addresses(addr, place);
}

/// A change of musical time that nothing locks and that can be measured is taken: the grid is the
/// one of the new time at the engine's rate, the takes to come are measured by it, and it is told.
/// One that cannot be measured is refused, and changes nothing.
pub proof fn a_new_time_is_taken<S>(
    v: EngineView<S>,
    command: Command,
    w: EngineView<S>,
    events: Seq<Event>,
)
    requires
        v.wf(),
        !v.locked(),
        can_handle(v, command),
        command is SetTempo || command is SetTimeSignature,
        handled(v, command, w, events),
    ensures
        ({
            let tempo = match command {
                Command::SetTempo(tempo) => tempo,
                _ => v.grid.tempo_at(),
            };
            let signature = match command {
                Command::SetTimeSignature(signature) => signature,
                _ => v.time_signature,
            };
            if measurable(v.sample_rate, tempo, signature) {
                &&& w.grid.wf()
                &&& w.grid.tempo_at() == tempo
                &&& w.grid.signature_at() == signature
                &&& w.grid.rate_at() == v.sample_rate
                &&& w.time_signature == signature
                &&& w.audio.bar_frames == w.grid.bar()
                &&& w.audio.tail_frames == tail_length(w.grid)
                &&& w.session == v.session
                &&& w.audio.clips == v.audio.clips
                &&& events == seq![
                    match command {
                        Command::SetTempo(tempo) => Event::Tempo { bpm: tempo },
                        _ => Event::TimeSignature {
                            beats_per_bar: signature.beats() as u32,
                            beat_unit: signature.unit() as u32,
                        },
                    },
                ]
            } else {
                &&& w == v
                &&& events == seq![
                    if command is SetTempo {
                        Event::TempoRejected
                    } else {
                        Event::TimeSignatureRejected
                    },
                ]
            }
        }),
{
    no_changes(v.session, 64);
    let first = choose|first: Seq<Event>| #[trigger]
        commanded(v, command, w, first) && events == first + changes(v.session, w.session, 64);
    assert(first + Seq::<Event>::empty() =~= first);
    assert(w.session == v.session);
    tails_stop_short_of_a_bar(w.grid);
}

/// The tail of a loop is every beat of the bar after it but the last: it ends where the last beat
/// begins.
pub proof fn tails_stop_short_of_a_bar(grid: BarGrid)
    requires
        grid.wf(),
    ensures
        0 <= tail_length(grid) < grid.bar(),
        tail_length(grid) * grid.beats() <= grid.bar() * (grid.beats() - 1) < (tail_length(grid)
            + 1) * grid.beats(),
{
    let bar = grid.bar();
    let beats = grid.beats();
    let most = bar * (beats - 1);
    let at = most / beats;
    assert(0 <= most < bar * beats) by (nonlinear_arith)
        requires
            most == bar * (beats - 1),
            0 < bar,
            0 < beats,
    ;
    lemma_fundamental_div_mod(most, beats);
    lemma_mod_bound(most, beats);
    assert(at * beats <= most < (at + 1) * beats && 0 <= at < bar) by (nonlinear_arith)
        requires
            most == beats * at + most % beats,
            0 <= most % beats < beats,
            0 <= most < bar * beats,
            0 < beats,
    ;
}

/// What turns the click on or off, turns it up or down, or sets how often it sounds does just
/// that. Turning it off cuts what still sounds; the level stays within what can be played.
pub proof fn the_click_is_set<S>(
    v: EngineView<S>,
    command: Command,
    w: EngineView<S>,
    events: Seq<Event>,
)
    requires
        handled(v, command, w, events),
        command is SetClickEnabled || command is SetClickLevel || command is SetClickSubdivision,
    ensures
        events == Seq::<Event>::empty(),
        w == (EngineView { click: w.click, subdivision: w.subdivision, ..v }),
        w.click.rate() == v.click.rate(),
        match command {
            Command::SetClickEnabled(on) => {
                &&& w.click.on() == on
                &&& !on ==> w.click.left() == 0
                &&& on ==> w.click.left() == v.click.left()
                &&& w.click.peak() == v.click.peak()
                &&& w.subdivision == v.subdivision
            },
            Command::SetClickLevel(level) => {
                &&& w.click.on() == v.click.on()
                &&& w.click.left() == v.click.left()
                &&& level <= 0x3F80_0000 ==> w.click.peak() == level
                &&& 0x3F80_0000 < level <= 0x7F80_0000 ==> w.click.peak() == 0x3F80_0000
                &&& 0x8000_0000 < level <= 0xFF80_0000 ==> w.click.peak() == 0
                &&& w.subdivision == v.subdivision
            },
            Command::SetClickSubdivision(subdivision) => {
                &&& w.click == v.click
                &&& w.subdivision == subdivision
            },
            _ => false,
        },
{
    no_changes(v.session, 64);
    let first = choose|first: Seq<Event>| #[trigger]
        commanded(v, command, w, first) && events == first + changes(v.session, w.session, 64);
    assert(first + Seq::<Event>::empty() =~= first);
}

/// Freezing discards the takes in progress and keeps every clip, and the mix is silent. With a
/// fade to wait for it has not landed yet: the move waits, and nothing else has changed.
pub proof fn a_pause_freezes<S>(v: EngineView<S>, w: EngineView<S>, events: Seq<Event>, place: int)
    requires
        v.wf(),
        !v.paused,
        v.pending != Some(Deferred::Pause),
        handled(v, Command::SetPaused(true), w, events),
        0 <= place < 64,
    ensures
        v.declick != 0 ==> w == (EngineView { pending: Some(Deferred::Pause), ..v }),
        v.declick == 0 ==> {
            &&& w.paused
            &&& w.silenced
            &&& w.position == v.position
            &&& w.grid == v.grid
            &&& w.session[place] == (if v.session[place] is Recording {
                SlotState::Empty
            } else {
                v.session[place]
            })
        },
{
    let first = choose|first: Seq<Event>| #[trigger]
        commanded(v, Command::SetPaused(true), w, first) && events == first + changes(
            v.session,
            w.session,
            64,
        );
    assert(sets_paused(v, true, w, first));
}

/// Resuming unfreezes, and takes back a freeze that is still waiting for the mix to fade. It takes
/// back nothing else that waits.
pub proof fn a_resume_unfreezes<S>(v: EngineView<S>, w: EngineView<S>, events: Seq<Event>)
    requires
        handled(v, Command::SetPaused(false), w, events),
    ensures
        !w.paused,
        w.pending != Some(Deferred::Pause),
        v.pending != Some(Deferred::Pause) ==> w.pending == v.pending,
        w == (EngineView { paused: false, pending: w.pending, ..v }),
        events == Seq::<Event>::empty(),
{
    no_changes(v.session, 64);
    let first = choose|first: Seq<Event>| #[trigger]
        commanded(v, Command::SetPaused(false), w, first) && events == first + changes(
            v.session,
            w.session,
            64,
        );
    assert(first + Seq::<Event>::empty() =~= first);
}

/// A transport move waits for the mix to fade, and is asked for again by nothing: it lands in the
/// first block that finds the mix silent, not before, and is then no longer waiting.
pub proof fn a_waiting_move_lands_in_silence<S>(
    v: EngineView<S>,
    faded: bool,
    w: EngineView<S>,
    events: Seq<Event>,
)
    requires
        lands(v, faded, w, events),
    ensures
        !faded ==> w == v && events == Seq::<Event>::empty(),
        v.pending is None ==> w == v && events == Seq::<Event>::empty(),
        faded ==> w.pending is None,
        faded && v.pending is Some ==> w.silenced,
        faded && v.pending == Some(Deferred::Pause) ==> w.paused && w.position == v.position,
        faded && (v.pending == Some(Deferred::Rewind) || v.pending == Some(Deferred::ClearAll))
            ==> w.position.0 == 0 && w.paused == v.paused,
{
    match v.pending {
        Some(action) if faded => {
            let ready = EngineView { pending: None, ..v };
            let made = choose|made: Seq<Event>|
                #[trigger] performs(ready, action, w, made) && events == made + changes(
                    v.session,
                    w.session,
                    64,
                );
        },
        _ => {},
    }
}

/// Input that falls short of a block is told, with how much was missing, unless the transport is
/// frozen. Enough of it is not told of.
pub proof fn missing_input_is_told<S>(
    v: EngineView<S>,
    faded: bool,
    frames: int,
    input_frames: int,
    w: EngineView<S>,
    events: Seq<Event>,
)
    requires
        begins_block(v, faded, frames, input_frames, w, events),
        0 <= input_frames,
        frames <= u64::MAX,
    ensures
        !w.paused && input_frames < frames ==> events.len() > 0 && (events.last() matches Event::Xrun {
            frames: missing,
        } && missing == frames - input_frames),
{
    let (audio, mid, first, second) = block_steps(v, faded, frames, input_frames, w, events);
}

/// How far settling refusals has come: the refused pads before a place are emptied and told of.
spec fn settled_so_far<S>(
    v: EngineView<S>,
    now: EngineView<S>,
    to: int,
    told: Seq<Event>,
) -> bool {
    &&& now.session.len() == 64
    &&& forall|p: int|
        0 <= p < 64 ==> #[trigger] now.session[p] == (if p < to && holds_place(
            v.audio.refused,
            p,
        ) {
            SlotState::Empty
        } else {
            v.session[p]
        })
    &&& forall|p: int|
        0 <= p < to && #[trigger] holds_place(v.audio.refused, p) ==> told.contains(
            Event::RecordingRefused { addr: SlotAddr::at(p) },
        )
}

/// Every pad that was armed and could not be given storage is emptied and told of. No other pad
/// changes.
pub proof fn refused_pads_are_emptied_and_told<S>(
    v: EngineView<S>,
    w: EngineView<S>,
    events: Seq<Event>,
    place: int,
)
    requires
        v.session.len() == 64,
        refusals_settle(v, w, events),
        0 <= place < 64,
    ensures
        holds_place(v.audio.refused, place) ==> w.session[place] is Empty && events.contains(
            Event::RecordingRefused { addr: SlotAddr::at(place) },
        ),
        !holds_place(v.audio.refused, place) ==> w.session[place] == v.session[place],
{
    let from = EngineView { audio: AudioView { refused: 0, ..v.audio }, ..v };
    let step = refusal_step::<S>(v.audio.refused);
    let inv = |now: EngineView<S>, i: int, told: Seq<Event>| settled_so_far(v, now, i, told);
    assert forall|
        now: EngineView<S>,
        i: int,
        told: Seq<Event>,
        next: EngineView<S>,
        here: Seq<Event>,
    |
        0 <= i < 64 && #[trigger] inv(now, i, told) && #[trigger] step(
            now,
            i,
            next,
            here,
        ) implies inv(next, i + 1, told + here) by {
        let all = told + here;
        assert forall|p: int|
            0 <= p < i + 1 && #[trigger] holds_place(v.audio.refused, p) implies all.contains(
            Event::RecordingRefused { addr: SlotAddr::at(p) },
        ) by {
            let refusal = Event::RecordingRefused { addr: SlotAddr::at(p) };
            if p < i {
                let k = choose|k: int| 0 <= k < told.len() && told[k] == refusal;
                assert(all[k] == refusal);
            } else {
                assert(here[here.len() - 1] == refusal);
                assert(all[all.len() - 1] == refusal);
            }
        }
        assert(now.session[i] == v.session[i]);
    }
    chain_keeps_told(step, from, 64, w, events, inv);
}

/// What a mixer is told over a run: the blip that starts with it and no other, every pad once and
/// in order, and what is left of a blip.
pub proof fn a_run_sounds_every_pad<S>(v: EngineView<S>, run: Run, offset: int, place: int)
    requires
        0 <= place < 64,
    ensures
        ({
            let sounds = run_sounds(v, run, offset);
            let head: int = if run.tone is Some {
                1
            } else {
                0
            };
            &&& sounds.len() == head + 65
            &&& run.tone matches Some(tone) ==> sounds[0] == Sound::<S>::Strike(tone)
            &&& sounds[head + place] == pad_sound(v, place, offset, run.frames as int)
            &&& sounds[head + 64] == blip_sound(v, offset, run.frames as int)
        }),
{
}

/// A pad plays from where it was launched, if its launch put it somewhere, and from where it was
/// recorded otherwise.
pub proof fn a_pad_plays_from_its_anchor<S>(v: EngineView<S>, place: int, offset: int, frames: int)
    requires
        0 <= place < 64,
        v.audio.clips[place] is Some,
        0 <= v.audio.clips[place]->Some_0.recorded_at <= u64::MAX,
    ensures
        match pad_sound(v, place, offset, frames) {
            Sound::Pad {
                addr,
                target: _,
                clip,
                anchor,
                pickup: _,
                position,
                declick,
                offset: at,
                frames: long,
            } => {
                &&& addr == SlotAddr::at(place)
                &&& clip == v.audio.clips[place]
                &&& v.audio.anchors[place] is Some ==> anchor == v.audio.anchors[place]->Some_0
                &&& v.audio.anchors[place] is None ==> anchor.0
                    == v.audio.clips[place]->Some_0.recorded_at
                &&& position == v.position
                &&& declick == v.declick
                &&& at == offset
                &&& long == frames
            },
            _ => false,
        },
{
}

/// A blip that starts with a run sounds from its beginning, for as long as it lasts; where none
/// starts, what was left of one goes on.
pub proof fn a_struck_blip_is_whole<S>(
    v: EngineView<S>,
    left: int,
    w: EngineView<S>,
    events: Seq<Event>,
    run: Run,
)
    requires
        starts_run(v, left, w, events, run),
        0 < v.click.rate().rate() <= 1_000_000,
    ensures
        run.tone matches Some(tone) ==> w.click.left() == tone.frames(v.click.rate().rate())
            && w.click.whole() == w.click.left(),
        run.tone is None ==> w.click == v.click,
        w.click.on() == v.click.on(),
        w.click.peak() == v.click.peak(),
{
    if let Some(tone) = tone_at(v) {
        blips_last_their_milliseconds(tone, v.click.rate().rate());
    }
}

/// A frozen transport sounds nothing and tells nothing of its own: the mix is cleared, and that is
/// all.
pub proof fn a_frozen_block_is_silent<S>(
    v: EngineView<S>,
    faded: bool,
    input: Seq<S>,
    frames: int,
    held: u32,
    to: Rendered<S>,
)
    requires
        processes(v, faded, input, frames, held, to),
        to.engine.paused,
        0 <= frames,
        v.position.0 + frames <= u64::MAX,
    ensures
        forall|i: int|
            0 <= i < to.sounds.len() ==> !((#[trigger] to.sounds[i]) is Pad) && !(
            to.sounds[i] is Blip) && !(to.sounds[i] is Strike),
        to.sounds.len() > 0,
        to.sounds[0] is Clear,
{
    let input_frames = input.len() as int / v.capture_channels;
    let (begun, first) = choose|begun: EngineView<S>, first: Seq<Event>| #[trigger]
        begins_block(v, faded, frames, input_frames, begun, first) && if begun.paused {
            to == opened(begun, faded, first)
        } else {
            runs_out(opened(begun, faded, first), input, frames, held, to)
        };
    beginning_moves_back(v, faded, frames, input_frames, begun, first);
    if !begun.paused {
        let from = opened(begun, faded, first);
        let (count, mid, last) = choose|count: int, mid: Rendered<S>, last: Seq<Event>|
            #![trigger runs(from, input, frames, count, mid), reports_clock(mid.engine, to.engine, last)]
            runs(from, input, frames, count, mid) && mid.done == frames && reports_clock(
                mid.engine,
                to.engine,
                last,
            ) && to.done == frames && to.events == mid.events + clipped(held) + last && to.sounds
                == mid.sounds.push(Sound::Limit(held));
        runs_read_no_clock(from, input, frames, count, mid);
    }
}

/// Samples that had to be held at full scale are told, with how many there were, and the mix is
/// limited once, last of all.
pub proof fn held_samples_are_told<S>(
    from: Rendered<S>,
    input: Seq<S>,
    frames: int,
    held: u32,
    to: Rendered<S>,
)
    requires
        runs_out(from, input, frames, held, to),
    ensures
        held > 0 ==> to.events.contains(Event::Clipped { samples: held }),
        to.sounds.len() > 0,
        to.sounds.last() == Sound::<S>::Limit(held),
{
    let (count, mid, last) = choose|count: int, mid: Rendered<S>, last: Seq<Event>|
        #![trigger runs(from, input, frames, count, mid), reports_clock(mid.engine, to.engine, last)]
        runs(from, input, frames, count, mid) && mid.done == frames && reports_clock(
            mid.engine,
            to.engine,
            last,
        ) && to.done == frames && to.events == mid.events + clipped(held) + last && to.sounds
            == mid.sounds.push(Sound::Limit(held));
    if held > 0 {
        assert(to.events[mid.events.len() as int] == (Event::Clipped { samples: held }));
    }
}

/// The next of equal cuts of a bar is one of them: of the same bar, or the next bar line.
proof fn the_next_cut_is_one(grid: BarGrid, position: int, cuts: int)
    requires
        grid.wf(),
        0 <= position,
        0 < cuts,
    ensures
        falls_on(grid, grid.cut_after(position, cuts), cuts),
{
    let bar = grid.bar();
    let into = position % bar;
    let whole = position / bar;
    lemma_mod_bound(position, bar);
    lemma_fundamental_div_mod(position, bar);
    cut_brackets(bar, into, cuts);
    let found = cut_at(bar, into, cuts);
    let next = cut_offset(bar, found + 1, cuts);
    let at = grid.cut_after(position, cuts);
    assert(bar * whole == whole * bar) by (nonlinear_arith);
    assert(at == whole * bar + next);
    if found + 1 < cuts {
        cuts_climb(bar, found + 1, cuts, cuts);
        if next < bar {
            lemma_fundamental_div_mod_converse(at, bar, whole, next);
            assert(at % bar == cut_offset(bar, found + 1, cuts));
        } else {
            assert(at == (whole + 1) * bar + 0) by (nonlinear_arith)
                requires
                    at == whole * bar + bar,
            ;
            lemma_fundamental_div_mod_converse(at, bar, whole + 1, 0);
            assert(at % bar == cut_offset(bar, 0, cuts));
        }
    } else {
        assert(at == (whole + 1) * bar + 0) by (nonlinear_arith)
            requires
                at == whole * bar + bar,
        ;
        lemma_fundamental_div_mod_converse(at, bar, whole + 1, 0);
        assert(at % bar == cut_offset(bar, 0, cuts));
    }
}

/// A run goes as far as it can: to the end of what is left of its block, or to a frame a beat or a
/// click falls on.
pub proof fn a_run_goes_as_far_as_it_can<S>(
    v: EngineView<S>,
    left: int,
    w: EngineView<S>,
    events: Seq<Event>,
    run: Run,
)
    requires
        v.wf(),
        0 < clicks(v),
        0 <= left,
        starts_run(v, left, w, events, run),
    ensures
        0 <= run.frames <= left,
        run.frames == left || falls_on(v.grid, v.position.0 + run.frames, v.grid.beats())
            || falls_on(v.grid, v.position.0 + run.frames, clicks(v)),
{
    let position = v.position.0 as int;
    the_next_cut_is_one(v.grid, position, v.grid.beats());
    the_next_cut_is_one(v.grid, position, clicks(v));
}

/// Going back to the start and emptying everything wait for the mix to fade: with a fade to wait for
/// nothing but that has changed yet, and with none they land at once, on silence.
pub proof fn moves_wait_for_the_fade<S>(
    v: EngineView<S>,
    command: Command,
    w: EngineView<S>,
    events: Seq<Event>,
)
    requires
        command is Rewind || command is ClearAll,
        handled(v, command, w, events),
    ensures
        v.declick != 0 ==> w == (EngineView {
            pending: Some(
                if command is Rewind {
                    Deferred::Rewind
                } else {
                    Deferred::ClearAll
                },
            ),
            ..v
        }),
        v.declick == 0 ==> w.position.0 == 0 && w.silenced && w.last_boundary is None && w.grid
            == v.grid && w.paused == v.paused,
{
    let first = choose|first: Seq<Event>| #[trigger]
        commanded(v, command, w, first) && events == first + changes(v.session, w.session, 64);
}

/// Freezing is asked for once: while the transport is frozen, or about to be, asking again does
/// nothing.
pub proof fn a_second_pause_does_nothing<S>(v: EngineView<S>, w: EngineView<S>, events: Seq<Event>)
    requires
        v.paused || v.pending == Some(Deferred::Pause),
        handled(v, Command::SetPaused(true), w, events),
    ensures
        w == v,
        events == Seq::<Event>::empty(),
{
    no_changes(v.session, 64);
    let first = choose|first: Seq<Event>| #[trigger]
        commanded(v, Command::SetPaused(true), w, first) && events == first + changes(
            v.session,
            w.session,
            64,
        );
    assert(sets_paused(v, true, w, first));
    assert(first + Seq::<Event>::empty() =~= first);
}

/// Of loops that are as long as each other, the first one leads.
pub proof fn the_first_of_the_longest_leads<S>(
    clips: Seq<Option<ClipView<S>>>,
    to: int,
    place: int,
)
    requires
        0 <= to <= clips.len(),
        0 <= place < longest(clips, to),
        clips[place] is Some,
    ensures
        clips[place]->Some_0.len < clips[longest(clips, to)]->Some_0.len,
    decreases to,
{
    let best = longest(clips, to - 1);
    the_longest_is_longest(clips, to - 1);
    if longest(clips, to) == best {
        the_first_of_the_longest_leads(clips, to - 1, place);
    } else if clips[place]->Some_0.len > 0 {
        assert(clips[place]->Some_0.len <= clips[best]->Some_0.len);
    }
}

/// A change of musical time that is taken keeps the transport where it is in the music: in the same
/// bar, and as far into it as before, to the frame.
pub proof fn a_new_time_keeps_the_place<S>(
    v: EngineView<S>,
    command: Command,
    w: EngineView<S>,
    events: Seq<Event>,
)
    requires
        v.wf(),
        !v.locked(),
        can_handle(v, command),
        command is SetTempo || command is SetTimeSignature,
        handled(v, command, w, events),
    ensures
        ({
            let into = v.position.0 as int % v.grid.bar();
            let there = w.position.0 as int % w.grid.bar();
            &&& w.position.0 as int / w.grid.bar() == v.position.0 as int / v.grid.bar()
            &&& there * v.grid.bar() <= into * w.grid.bar()
            &&& into * w.grid.bar() < (there + 1) * v.grid.bar()
        }),
{
    a_new_time_is_taken(v, command, w, events);
    let position = v.position.0 as int;
    lemma_mod_bound(position, v.grid.bar());
    if w == v {
        assert((position % v.grid.bar()) * v.grid.bar() < (position % v.grid.bar() + 1)
            * v.grid.bar()) by (nonlinear_arith)
            requires
                v.grid.bar() > 0,
        ;
    } else {
        let tempo = match command {
            Command::SetTempo(tempo) => tempo,
            _ => v.grid.tempo_at(),
        };
        let signature = match command {
            Command::SetTimeSignature(signature) => signature,
            _ => v.time_signature,
        };
        rebasing_keeps_the_place_in_the_bar(v.grid, position, w.grid);
        rebasing_keeps_the_bar(v.grid, position, w.grid);
        assert(measures(w.grid, v.sample_rate, tempo, signature));
        assert(w.position.0 == v.grid.rebased(position, w.grid));
    }
}

/// What is left of a blip is told as it is: how many frames of the run it sounds in, from where in
/// it, how long it is as a whole and how loud. A click turned down to nothing sounds in none.
pub proof fn a_blip_is_told_as_it_is<S>(v: EngineView<S>, offset: int, frames: int)
    requires
        0 <= frames <= usize::MAX,
    ensures
        match blip_sound(v, offset, frames) {
            Sound::Blip { blip, offset: at, frames: long } => {
                &&& blip.remaining == v.click.left()
                &&& blip.length == v.click.whole()
                &&& blip.level == v.click.peak()
                &&& at == offset
                &&& long == frames
                &&& blip.frames <= frames
                &&& blip.frames <= v.click.left()
                &&& silent(v.click.peak()) ==> blip.frames == 0
                &&& !silent(v.click.peak()) ==> blip.frames == frames || blip.frames
                    == v.click.left()
            },
            _ => false,
        },
{
}

/// A mix that was cut to silence is told so at the start of the block, once, and before anything
/// sounds in it.
pub proof fn silence_is_told_once<S>(begun: EngineView<S>, faded: bool, events: Seq<Event>)
    ensures
        ({
            let from = opened(begun, faded, events);
            &&& from.sounds[0] is Clear
            &&& from.sounds[1] == Sound::<S>::Faded(faded)
            &&& from.sounds.len() == 3 <==> begun.silenced
            &&& begun.silenced ==> from.sounds[2] is Silence
            &&& !from.engine.silenced
            &&& from.engine == (EngineView { silenced: false, ..begun })
            &&& from.events == events
            &&& from.done == 0
        }),
{
}

} // verus!
