//! What gestures add up to: the promises the controller keeps over more than one of them.

use vstd::prelude::*;

use crate::command::Command;
use crate::control::{
    any_past, every, first_view, fitting_rate, passed, pickup_degrees, pulled_in, sets_tempo,
    settings_of, warned, Chrome, ControllerView, Request, Work, CLEAR_HOLD, TEMPO_STEP,
};
use crate::device::{Nanos, LONGEST};
use crate::event::Event;
use crate::gain::UNITY_STEP;
use crate::ids::{
    column_set, holds, holds_place, places_are_addresses, row_set, sets_hold, PadMask, Polyphony,
    SlotAddr,
};
use crate::pan::CENTRE_STEP;
use crate::screen::{role_of, Button, Mode, Role};
use crate::settings::Settings;
use crate::slot::SlotState;
use crate::surface::SurfaceEvent;
use crate::time::{Tempo, TimeSignature};

verus! {

/// A tap on a loop acts once, and only when the pad comes up: nothing is asked for while it is
/// down.
pub proof fn a_tap_is_one_press(v: ControllerView, addr: SlotAddr, now: Nanos)
    requires
        v.wf(),
        addr.wf(),
        v.mode is Perform,
        v.input_held != Some(addr),
    ensures
        v.presses_pad(addr, now).work == v.work,
        v.presses_pad(addr, now).releases_pad(addr).work == v.work.push(
            Work::Command(Command::Press(addr)),
        ),
        v.presses_pad(addr, now).releases_pad(addr).held == v.held.update(addr.place(), None),
{
    places_are_addresses(addr, 0);
    assert(v.presses_pad(addr, now).releases_pad(addr).held =~= v.held.update(addr.place(), None));
}

/// A pad held long enough is emptied while it is still down, and letting it go then asks for
/// nothing more.
pub proof fn a_hold_is_one_clear(v: ControllerView, addr: SlotAddr, now: Nanos)
    requires
        v.wf(),
        addr.wf(),
        v.input_held != Some(addr),
        v.held[addr.place()] matches Some(since) && passed(now, since) >= CLEAR_HOLD,
    ensures
        v.ticks(now).work.contains(Work::Command(Command::Clear(addr))),
        v.ticks(now).held[addr.place()] is None,
        v.ticks(now).releases_pad(addr).work == v.ticks(now).work,
{
    places_are_addresses(addr, addr.place());
    let before = v.repeats_tempo(now).opens_click_page(now).darkens_beat(now).ends_flash(
        now,
    ).ends_text(now);
    emptying(before, now, 64);
    let at = addr.place();
    assert(before.held == v.held);
    assert(before.empties_pads(now, 64).work.contains(
        Work::Command(Command::Clear(SlotAddr::at(at))),
    ));
}

/// Emptying pads empties each one that has been held long enough, leaves the others, and
/// changes nothing but what is asked for.
pub(crate) proof fn emptying(v: ControllerView, now: Nanos, to: int)
    requires
        v.wf(),
        0 <= to <= 64,
    ensures
        v.empties_pads(now, to) == (ControllerView {
            held: v.empties_pads(now, to).held,
            work: v.empties_pads(now, to).work,
            ..v
        }),
        v.empties_pads(now, to).held.len() == 64,
        forall|i: int|
            0 <= i < 64 ==> #[trigger] v.empties_pads(now, to).held[i] == (match v.held[i] {
                Some(since) if i < to && passed(now, since) >= CLEAR_HOLD => None::<Nanos>,
                _ => v.held[i],
            }),
        forall|i: int|
            0 <= i < to && (#[trigger] v.held[i]) is Some && passed(now, v.held[i]->Some_0)
                >= CLEAR_HOLD ==> v.empties_pads(now, to).work.contains(
                Work::Command(Command::Clear(SlotAddr::at(i))),
            ),
    decreases to,
{
    if to > 0 {
        emptying(v, now, to - 1);
        let before = v.empties_pads(now, to - 1);
        let after = v.empties_pads(now, to);
        assert forall|i: int|
            0 <= i < to && (#[trigger] v.held[i]) is Some && passed(now, v.held[i]->Some_0)
                >= CLEAR_HOLD implies after.work.contains(
            Work::Command(Command::Clear(SlotAddr::at(i))),
        ) by {
            let clear = Work::Command(Command::Clear(SlotAddr::at(i)));
            if i < to - 1 {
                let k = choose|k: int| 0 <= k < before.work.len() && before.work[k] == clear;
                assert(after.work[k] == clear);
            } else {
                assert(after.work[after.work.len() - 1] == clear);
            }
        }
    }
}

/// Nothing that waits for a moment happens twice at it: time passing is noticed once.
pub proof fn a_moment_passes_once(v: ControllerView, now: Nanos)
    requires
        v.wf(),
        now <= LONGEST,
        v.tempo_hold matches Some(hold) ==> !(hold.screen is Subdivision),
    ensures
        v.ticks(now).ticks(now) == v.ticks(now),
{
    let a = v.repeats_tempo(now).opens_click_page(now).darkens_beat(now).ends_flash(now).ends_text(
        now,
    );
    let w = v.ticks(now);
    emptying(a, now, 64);
    assert(w.repeats_tempo(now) == w);
    assert(w.opens_click_page(now) == w);
    assert(w.darkens_beat(now) == w);
    assert(w.ends_flash(now) == w);
    assert(w.ends_text(now) == w);
    emptying(w, now, 64);
    nothing_left(w, now, 64);
    assert(a.held == v.held);
    same_warning(v.held, w.held, now, 64);
}

/// Where no pad has been held long enough, none is emptied.
proof fn nothing_left(v: ControllerView, now: Nanos, to: int)
    requires
        v.wf(),
        0 <= to <= 64,
        forall|i: int|
            0 <= i < 64 && (#[trigger] v.held[i]) is Some ==> passed(now, v.held[i]->Some_0)
                < CLEAR_HOLD,
    ensures
        v.empties_pads(now, to) == v,
    decreases to,
{
    if to > 0 {
        nothing_left(v, now, to - 1);
    }
}

/// Pads that were emptied are not among those that warn.
proof fn same_warning(before: Seq<Option<Nanos>>, after: Seq<Option<Nanos>>, now: Nanos, to: int)
    requires
        0 <= to <= 64,
        before.len() == 64,
        after.len() == 64,
        forall|i: int|
            0 <= i < 64 ==> #[trigger] after[i] == (match before[i] {
                Some(since) if passed(now, since) >= CLEAR_HOLD => None::<Nanos>,
                _ => before[i],
            }),
    ensures
        warned(after, now, to) == warned(before, now, to),
    decreases to,
{
    if to > 0 {
        same_warning(before, after, now, to - 1);
    }
}

/// Two changes of the settings in a row ask for the later one alone.
pub proof fn settings_in_a_row_are_one(v: ControllerView, first: Chrome, second: Chrome)
    ensures
        v.resets(first).resets(second).work == v.resets(second).work,
{
    assert(v.resets(first).resets(second).work =~= v.resets(second).work);
}

/// The other tempo button going down while one is held undoes whatever that one did: the tempo
/// is back where it was, one change to it is all that is asked for, and the signature screen
/// opens, or closes if it was open.
pub proof fn both_tempo_buttons_undo(
    v: ControllerView,
    first: i32,
    second: i32,
    began: Nanos,
    now: Nanos,
)
    requires
        v.wf(),
        v.tempo_hold is None,
        !v.has_clip(),
        -1 <= first <= 1,
    ensures
        ({
            let w = v.presses_tempo(first, began).presses_tempo(second, now);
            &&& w.tempo == v.tempo
            &&& w.tempo_before_request == v.tempo
            &&& w.tempo_hold is None
            &&& w.mode == (if v.mode is TimeSignature {
                Mode::Perform
            } else {
                Mode::TimeSignature
            })
            &&& w.work.len() > 0
            &&& w.work.last() == Work::Command(Command::SetTempo(v.tempo))
            &&& forall|i: int| 0 <= i < w.work.len() - 1 ==> !sets_tempo(#[trigger] w.work[i])
        }),
{
    let mid = v.presses_tempo(first, began);
    let keep = |work: Work| !sets_tempo(work);
    let w = mid.presses_tempo(second, now);
    assert forall|i: int| 0 <= i < w.work.len() - 1 implies !sets_tempo(#[trigger] w.work[i]) by {
        assert(w.work[i] == mid.work.filter(keep)[i]);
        mid.work.lemma_filter_pred(keep, i);
    }
}

/// A tempo change that is turned down leaves the tempo where it was before it was asked for.
pub proof fn a_refused_tempo_rolls_back(v: ControllerView, delta: int, now: Nanos)
    requires
        v.tempo.moved(delta) != v.tempo,
    ensures
        v.nudges_tempo(delta).takes_report(Event::TempoRejected, now).tempo == v.tempo,
{
}

/// A signature that is turned down leaves the one the engine last confirmed, and everything
/// that follows from a signature as it was.
pub proof fn a_refused_signature_rolls_back(
    v: ControllerView,
    next: TimeSignature,
    pressed: Nanos,
    now: Nanos,
)
    requires
        v.time_signature == v.confirmed_signature,
        v.chrome.signature == v.time_signature,
    ensures
        ({
            let w = v.presses_signature(next, pressed).takes_report(
                Event::TimeSignatureRejected,
                now,
            );
            w.time_signature == v.time_signature && w.chrome == v.chrome
        }),
{
}

/// Pressing a pad of a group the pad is not in marks the whole group, however much of it was
/// marked; pressing it again frees the whole group. No other pad is touched.
pub proof fn a_group_pressed_twice_is_free(v: ControllerView, addr: SlotAddr, other: SlotAddr)
    requires
        addr.wf(),
        other.wf(),
        v.mode is Mute,
        !holds(v.chrome.muted, addr),
    ensures
        ({
            let grouped = if v.chrome.axis is Row {
                other.track == addr.track
            } else {
                other.slot == addr.slot
            };
            let once = v.toggles_group(addr);
            let twice = once.toggles_group(addr);
            &&& holds(once.chrome.muted, other) <==> grouped || holds(v.chrome.muted, other)
            &&& holds(twice.chrome.muted, other) <==> !grouped && holds(v.chrome.muted, other)
        }),
{
    let group = if v.chrome.axis is Row {
        row_set(addr.track)
    } else {
        column_set(addr.slot)
    };
    in_group(addr, other);
    in_group(addr, addr);
    set_steps(v.chrome.muted, group, other.place());
    set_steps(v.chrome.muted, group, addr.place());
    set_steps(v.chrome.muted | group, group, other.place());
}

/// A row holds the pads of its track, and a column those of its slot.
pub(crate) proof fn in_group(addr: SlotAddr, other: SlotAddr)
    requires
        addr.wf(),
        other.wf(),
    ensures
        holds(row_set(addr.track), other) <==> other.track == addr.track,
        holds(column_set(addr.slot), other) <==> other.slot == addr.slot,
        0 <= other.place() < 64,
{
    places_are_addresses(other, 0);
    sets_hold(addr.track, addr.slot, other.place());
}

/// Joining and taking away sets of pads, pad by pad.
pub(crate) proof fn set_steps(marks: PadMask, group: PadMask, place: int)
    requires
        0 <= place < 64,
    ensures
        holds_place(marks | group, place) <==> holds_place(marks, place) || holds_place(
            group,
            place,
        ),
        holds_place(marks & !group, place) <==> holds_place(marks, place) && !holds_place(
            group,
            place,
        ),
{
    let p = place as u64;
    assert((marks | group) & (1u64 << p) != 0 <==> (marks & (1u64 << p) != 0 || group & (1u64 << p)
        != 0)) by (bit_vector);
    assert((marks & !group) & (1u64 << p) != 0 <==> (marks & (1u64 << p) != 0 && !(group & (1u64
        << p) != 0))) by (bit_vector)
        requires
            p < 64,
    ;
}

/// A screen opened from another and asked for again goes back to the loops.
pub proof fn a_screen_asked_for_twice_closes(v: ControllerView, wanted: Mode)
    requires
        v.mode != wanted,
    ensures
        v.sets_mode(wanted).mode == wanted,
        v.sets_mode(wanted).sets_mode(wanted).mode is Perform,
{
}

/// Each frame is handed out once.
pub proof fn a_frame_is_taken_once(v: ControllerView)
    ensures
        !v.painted().has_frame(),
{
}

/// A fresh session is empty and unnamed, with every setting at its start, and the engine is
/// told to empty the pads before it is told the tempo and the signature, which clips would lock.
pub proof fn a_fresh_session_clears_first(v: ControllerView)
    ensures
        ({
            let w = v.starts_fresh();
            let clear = Work::Command(Command::ClearAll);
            let tempo = Work::Command(Command::SetTempo(v.default_tempo));
            let signature = Work::Command(Command::SetTimeSignature(v.default_time_signature));
            &&& !w.has_clip()
            &&& w.current is None
            &&& w.mode is Perform
            &&& w.tempo == v.default_tempo
            &&& w.time_signature == v.default_time_signature
            &&& w.work.last() == signature
            &&& exists|i: int, j: int|
                0 <= i < j < w.work.len() - 1 && #[trigger] w.work[i] == clear
                    && #[trigger] w.work[j] == tempo
        }),
{
    let w = v.starts_fresh();
    let clear = Work::Command(Command::ClearAll);
    let tempo = Work::Command(Command::SetTempo(v.default_tempo));
    let n = (if v.work.len() > 0 && (v.work.last() matches Work::Command(Command::SetSettings(_))) {
        v.work.len()
    } else {
        v.work.len() + 1
    }) as int;
    assert(w.work[n] == clear);
    assert(w.work[n + 2] == tempo);
}

/// Whether a piece of work would write over a session or empty the grid to load one.
pub open spec fn replaces(v: ControllerView, work: Work) -> bool {
    match work {
        Work::Request(Request::SaveSession(pad)) => holds(v.sessions, pad),
        Work::Request(Request::LoadSession(_)) => v.has_clip(),
        _ => false,
    }
}

/// Nothing is written over without a question: where a gesture asks for a session to be saved
/// over another, or to be loaded over what the grid holds, the question about that very pad was
/// on the grid.
pub proof fn nothing_is_replaced_unasked(
    v: ControllerView,
    event: SurfaceEvent,
    now: Nanos,
    work: Work,
)
    requires
        v.wf(),
        event matches SurfaceEvent::PadPressed { addr, .. } ==> addr.wf(),
        !v.work.contains(work),
        v.takes_gesture(event, now).work.contains(work),
        replaces(v, work),
    ensures
        work matches Work::Request(Request::SaveSession(pad)) ==> v.mode == Mode::ConfirmSave(pad),
        work matches Work::Request(Request::LoadSession(pad)) ==> v.mode == Mode::ConfirmLoad(pad),
{
    let request = work->Request_0;
    match event {
        SurfaceEvent::PadPressed { addr, velocity: _ } => {
            asked_by_pad(v, addr, now, request);
        },
        SurfaceEvent::PadReleased { addr } => {
            commands_ask_nothing(v.work, Command::Press(addr), request);
        },
        SurfaceEvent::ControlPressed(control) => {
            buttons_ask_nothing(v, Button::Top(control), now, request);
        },
        SurfaceEvent::SidePressed { index } => {
            buttons_ask_nothing(v, Button::Side(index as usize), now, request);
        },
        SurfaceEvent::ControlReleased(_) => {
            commands_ask_nothing(
                v.work,
                Command::SetClickEnabled(!v.chrome.click_enabled),
                request,
            );
        },
        SurfaceEvent::SideReleased { .. } => {},
    }
}

/// Whether something is among what is asked for.
spec fn asks(work: Seq<Work>, request: Request) -> bool {
    work.contains(Work::Request(request))
}

/// A command asks nothing of the caller.
proof fn commands_ask_nothing(work: Seq<Work>, command: Command, request: Request)
    ensures
        asks(work.push(Work::Command(command)), request) == asks(work, request),
{
    let more = work.push(Work::Command(command));
    if asks(more, request) {
        let k = choose|k: int| 0 <= k < more.len() && more[k] == Work::Request(request);
        assert(work[k] == more[k]);
    }
    if asks(work, request) {
        let k = choose|k: int| 0 <= k < work.len() && work[k] == Work::Request(request);
        assert(work[k] == more[k]);
    }
}

/// Telling the settings asks nothing of the caller.
proof fn settings_ask_nothing(v: ControllerView, request: Request)
    ensures
        asks(v.marks_settings().work, request) ==> asks(v.work, request),
{
    let more = v.marks_settings().work;
    if asks(more, request) {
        let k = choose|k: int| 0 <= k < more.len() && more[k] == Work::Request(request);
        assert(v.work[k] == more[k]);
    }
}

/// The only gesture on the grid that asks for a session is a pad of a picker, or the answer to
/// a question about that session.
proof fn asked_by_pad(v: ControllerView, addr: SlotAddr, now: Nanos, request: Request)
    requires
        v.wf(),
        addr.wf(),
        !asks(v.work, request),
        asks(v.presses_pad(addr, now).work, request),
    ensures
        request matches Request::SaveSession(pad) ==> v.mode == Mode::ConfirmSave(pad) || !holds(
            v.sessions,
            pad,
        ),
        request matches Request::LoadSession(pad) ==> v.mode == Mode::ConfirmLoad(pad)
            || !v.has_clip(),
{
    let w = v.presses_pad(addr, now);
    let k = choose|k: int| 0 <= k < w.work.len() && w.work[k] == Work::Request(request);
    match role_of(v.mode, Button::Grid(addr)) {
        Role::Answer => {
            assert(k < v.work.len() ==> v.work[k] == w.work[k]);
        },
        Role::SaveTo => {
            assert(k < v.work.len() ==> v.work[k] == w.work[k]);
        },
        Role::LoadFrom => {
            assert(k < v.work.len() ==> v.work[k] == w.work[k]);
        },
        Role::Group => {
            settings_ask_nothing(v.with_chrome(w.chrome), request);
        },
        Role::Level => {
            settings_ask_nothing(v.with_chrome(w.chrome), request);
        },
        Role::Pan => {
            settings_ask_nothing(v.with_chrome(w.chrome), request);
        },
        Role::InputChannel => {
            settings_ask_nothing(v.with_chrome(w.chrome), request);
        },
        Role::Setting => {
            settings_ask_nothing(v.with_chrome(w.chrome), request);
        },
        Role::Beats(beats) => {
            let next = TimeSignature::of(beats as int, v.time_signature.unit());
            commands_ask_nothing(v.work, Command::SetTimeSignature(next), request);
        },
        Role::Unit(unit) => {
            let next = TimeSignature::of(v.time_signature.beats(), unit as int);
            commands_ask_nothing(v.work, Command::SetTimeSignature(next), request);
        },
        Role::Rate(rate) => {
            commands_ask_nothing(v.work, Command::SetClickSubdivision(rate), request);
        },
        _ => {},
    }
}

/// No button around the grid asks for a session.
proof fn buttons_ask_nothing(v: ControllerView, button: Button, now: Nanos, request: Request)
    ensures
        asks(v.presses_button(button, now).work, request) ==> asks(v.work, request),
{
    match role_of(v.mode, button) {
        Role::Transport => {
            commands_ask_nothing(v.work, Command::SetPaused(!v.chrome.paused), request);
        },
        Role::Tempo(direction) => {
            match v.tempo_hold {
                Some(hold) => {
                    let keep = |work: Work| !sets_tempo(work);
                    let kept = v.work.filter(keep);
                    commands_ask_nothing(kept, Command::SetTempo(hold.started_at), request);
                    if asks(kept, request) {
                        v.work.lemma_filter_contains_rev(keep, Work::Request(request));
                    }
                },
                None => {
                    let wanted = v.tempo.moved(direction * TEMPO_STEP);
                    commands_ask_nothing(v.work, Command::SetTempo(wanted), request);
                },
            }
        },
        Role::StopAll => {
            commands_ask_nothing(v.work, Command::StopAll, request);
        },
        Role::Rewind => {
            commands_ask_nothing(v.work, Command::Rewind, request);
        },
        Role::NewSession => {
            fresh_asks_nothing(v, request);
        },
        _ => {},
    }
}

/// The steps of a fresh session, in order.
proof fn fresh_asks_nothing(v: ControllerView, request: Request)
    ensures
        asks(v.starts_fresh().work, request) ==> asks(v.work, request),
{
    let (emptied, timed, fitted) = fresh_steps(v);
    settings_ask_nothing(emptied, request);
    let marked = emptied.marks_settings().work;
    commands_ask_nothing(marked, Command::ClearAll, request);
    let cleared = marked.push(Work::Command(Command::ClearAll));
    commands_ask_nothing(cleared, Command::SetPaused(false), request);
    let running = cleared.push(Work::Command(Command::SetPaused(false)));
    commands_ask_nothing(running, Command::SetTempo(v.default_tempo), request);
    commands_ask_nothing(
        timed.work,
        Command::SetClickSubdivision(fitting_rate(v.default_time_signature)),
        request,
    );
    let most = pickup_degrees(v.default_time_signature);
    settings_ask_nothing(
        fitted.with_chrome(
            Chrome { pickups: pulled_in(fitted.chrome.pickups, most, 8), ..fitted.chrome },
        ),
        request,
    );
    commands_ask_nothing(
        fitted.pulls_pickups(most).work,
        Command::SetTimeSignature(v.default_time_signature),
        request,
    );
}

/// A fresh session on the way: everything emptied, then the engine told so and of the tempo,
/// then the click fitted to the signature.
proof fn fresh_steps(v: ControllerView) -> (steps: (ControllerView, ControllerView, ControllerView))
    ensures
        steps.0.work == v.work,
        steps.1.chrome == (Chrome { signature: v.default_time_signature, ..steps.0.chrome }),
        steps.1.work == steps.0.marks_settings().work.push(Work::Command(Command::ClearAll)).push(
            Work::Command(Command::SetPaused(false)),
        ).push(Work::Command(Command::SetTempo(v.default_tempo))),
        steps.2 == steps.1.fits_rate(v.default_time_signature),
        v.starts_fresh() == steps.2.pulls_pickups(
            pickup_degrees(v.default_time_signature),
        ).commands(Command::SetTimeSignature(v.default_time_signature)).touched(),
{
    let emptied = ControllerView {
        session: Seq::new(64, |i: int| SlotState::Empty),
        chrome: Chrome {
            muted: 0,
            soloed: 0,
            paused: false,
            gains: every(UNITY_STEP),
            inputs: every(v.default_input),
            launch_modes: every(v.default_launch_mode),
            pickups: every(0),
            polyphony: every(Polyphony::Single),
            pans: every(CENTRE_STEP),
            ..v.chrome
        },
        current: None,
        mode: Mode::Perform,
        ..v
    };
    let timed = (ControllerView {
        tempo: v.default_tempo,
        tempo_before_request: v.default_tempo,
        ..emptied.marks_settings().commands(Command::ClearAll).commands(Command::SetPaused(false))
    }).commands(Command::SetTempo(v.default_tempo));
    let shown = ControllerView {
        confirmed_signature: v.default_time_signature,
        ..timed.shows_signature(v.default_time_signature)
    };
    (emptied, shown, shown.fits_rate(v.default_time_signature))
}

/// What the engine was last told every track should be set to, once it has taken some work.
pub open spec fn last_told(before: Settings, work: Seq<Work>) -> Settings
    decreases work.len(),
{
    if work.len() == 0 {
        before
    } else {
        match work.last() {
            Work::Command(Command::SetSettings(settings)) => settings,
            _ => last_told(before, work.drop_last()),
        }
    }
}

/// Whether the engine is up to date with every setting once it has taken what is asked for.
pub open spec fn told_all(v: ControllerView, before: Settings) -> bool {
    last_told(before, v.work) == settings_of(v.chrome)
}

/// Another piece of work that is not a change of the settings leaves what was last told.
proof fn told_push(before: Settings, work: Seq<Work>, more: Work)
    ensures
        last_told(before, work.push(more)) == (match more {
            Work::Command(Command::SetSettings(settings)) => settings,
            _ => last_told(before, work),
        }),
{
    assert(work.push(more).drop_last() =~= work);
}

/// Dropping changes of the tempo leaves what was last told.
proof fn told_filter(before: Settings, work: Seq<Work>)
    ensures
        last_told(before, work.filter(|work: Work| !sets_tempo(work))) == last_told(before, work),
    decreases work.len(),
{
    let keep = |work: Work| !sets_tempo(work);
    reveal(Seq::filter);
    if work.len() > 0 {
        told_filter(before, work.drop_last());
        if keep(work.last()) {
            told_push(before, work.drop_last().filter(keep), work.last());
        }
    }
}

/// Marking the settings tells them.
proof fn told_marks(v: ControllerView, before: Settings)
    ensures
        last_told(before, v.marks_settings().work) == settings_of(v.chrome),
{
}

/// Every change of a setting reaches the engine: a gesture leaves nothing about the tracks that
/// the engine has not been told by the end of what is asked for.
pub proof fn gestures_tell_every_setting(
    v: ControllerView,
    event: SurfaceEvent,
    now: Nanos,
    before: Settings,
)
    requires
        told_all(v, before),
    ensures
        told_all(v.takes_gesture(event, now), before),
{
    match event {
        SurfaceEvent::PadPressed { addr, velocity: _ } => {
            told_pad(v, addr, now, before);
        },
        SurfaceEvent::PadReleased { addr } => {
            told_push(before, v.work, Work::Command(Command::Press(addr)));
        },
        SurfaceEvent::ControlPressed(control) => {
            told_button(v, Button::Top(control), now, before);
        },
        SurfaceEvent::SidePressed { index } => {
            told_button(v, Button::Side(index as usize), now, before);
        },
        SurfaceEvent::ControlReleased(_) => {
            told_push(before, v.work, Work::Command(Command::SetClickEnabled(!v.chrome.click_enabled)));
        },
        SurfaceEvent::SideReleased { .. } => {},
    }
}

proof fn told_pad(v: ControllerView, addr: SlotAddr, now: Nanos, before: Settings)
    requires
        told_all(v, before),
    ensures
        told_all(v.presses_pad(addr, now), before),
{
    let w = v.presses_pad(addr, now);
    if w.work.len() == v.work.len() + 1 {
        told_push(before, v.work, w.work.last());
        assert(w.work =~= v.work.push(w.work.last()) || w.work.last() is Command);
    }
}

proof fn told_button(v: ControllerView, button: Button, now: Nanos, before: Settings)
    requires
        told_all(v, before),
    ensures
        told_all(v.presses_button(button, now), before),
{
    let w = v.presses_button(button, now);
    match role_of(v.mode, button) {
        Role::NewSession => {
            told_fresh(v, before);
        },
        Role::Tempo(direction) => {
            if v.tempo_hold is Some {
                told_filter(before, v.work);
                told_push(
                    before,
                    v.work.filter(|work: Work| !sets_tempo(work)),
                    Work::Command(Command::SetTempo(v.tempo_hold->Some_0.started_at)),
                );
            } else {
                told_push(before, v.work, w.work.last());
            }
        },
        _ => {
            if w.work.len() > v.work.len() {
                told_push(before, v.work, w.work.last());
            }
        },
    }
}

proof fn told_fresh(v: ControllerView, before: Settings)
    ensures
        told_all(v.starts_fresh(), before),
{
    let (emptied, timed, fitted) = fresh_steps(v);
    told_marks(emptied, before);
    let marked = emptied.marks_settings().work;
    told_push(before, marked, Work::Command(Command::ClearAll));
    let cleared = marked.push(Work::Command(Command::ClearAll));
    told_push(before, cleared, Work::Command(Command::SetPaused(false)));
    let running = cleared.push(Work::Command(Command::SetPaused(false)));
    told_push(before, running, Work::Command(Command::SetTempo(v.default_tempo)));
    told_signature(timed, v.default_time_signature, before);
    told_push(
        before,
        fitted.pulls_pickups(pickup_degrees(v.default_time_signature)).work,
        Work::Command(Command::SetTimeSignature(v.default_time_signature)),
    );
}

/// Fitting the click and the pickups to a signature tells what it changes.
proof fn told_signature(v: ControllerView, signature: TimeSignature, before: Settings)
    requires
        told_all(v, before),
    ensures
        told_all(
            v.fits_rate(signature).pulls_pickups(pickup_degrees(signature)),
            before,
        ),
{
    let fitted = v.fits_rate(signature);
    let most = pickup_degrees(signature);
    told_push(
        before,
        v.work,
        Work::Command(Command::SetClickSubdivision(fitting_rate(signature))),
    );
    if !any_past(fitted.chrome.pickups, most, 8) {
        pulled_in_place(fitted.chrome.pickups, most, 8);
    }
}

/// Pickups that are within a degree stay where they are.
proof fn pulled_in_place(pickups: [u8; 8], most: int, to: int)
    requires
        0 <= to <= 8,
        !any_past(pickups, most, 8),
    ensures
        pulled_in(pickups, most, to) == pickups,
    decreases to,
{
    if to > 0 {
        pulled_in_place(pickups, most, to - 1);
        assert(pulled_in(pickups, most, to) =~= pickups);
    }
}

/// What the engine reports leaves nothing about the tracks that it has not been told.
pub proof fn reports_tell_every_setting(
    v: ControllerView,
    event: Event,
    now: Nanos,
    before: Settings,
)
    requires
        told_all(v, before),
    ensures
        told_all(v.takes_report(event, now), before),
{
    match event {
        Event::TimeSignature { beats_per_bar, beat_unit } => {
            let signature = TimeSignature::of(beats_per_bar as int, beat_unit as int);
            told_signature(
                ControllerView {
                    confirmed_signature: signature,
                    ..v.shows_signature(signature)
                },
                signature,
                before,
            );
        },
        _ => {},
    }
}

/// Time passing leaves nothing about the tracks that the engine has not been told.
pub proof fn ticks_tell_every_setting(v: ControllerView, now: Nanos, before: Settings)
    requires
        v.wf(),
        told_all(v, before),
    ensures
        told_all(v.ticks(now), before),
{
    let repeated = v.repeats_tempo(now);
    match v.tempo_hold {
        Some(hold) => {
            told_push(
                before,
                v.work,
                Work::Command(Command::SetTempo(v.tempo.moved(hold.delta as int))),
            );
        },
        None => {},
    }
    let a = repeated.opens_click_page(now).darkens_beat(now).ends_flash(now).ends_text(now);
    told_emptying(a, now, 64, before);
}

proof fn told_emptying(v: ControllerView, now: Nanos, to: int, before: Settings)
    requires
        told_all(v, before),
    ensures
        told_all(v.empties_pads(now, to), before),
    decreases to,
{
    if to > 0 {
        told_emptying(v, now, to - 1, before);
        told_push(
            before,
            v.empties_pads(now, to - 1).work,
            Work::Command(Command::Clear(SlotAddr::at(to - 1))),
        );
    }
}

/// A controller starts with the engine told everything.
pub proof fn everything_is_told_at_first(
    tempo: Tempo,
    signature: TimeSignature,
    click_enabled: bool,
    before: Settings,
)
    ensures
        told_all(first_view(tempo, signature, click_enabled), before),
{
}

} // verus!
