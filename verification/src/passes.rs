//! What the passes of the control loop add up to: nothing is lost between the engine, the
//! performer and the surface.

use vstd::prelude::*;

use crate::command::Command;
use crate::control::{ControllerView, Work};
use crate::device::Nanos;
use crate::event::{Event, EventKind};
use crate::ids::{places_are_addresses, SlotAddr};
use crate::looping::{
    added_up, answering, asking_again, clock_due, gathered, informed, save_resolved, Gathered,
    PendingSave, SaveOutcome,
};
use crate::reports::{dropped_since, kind_at};
use crate::snapshot::Snapshot;
use crate::time::TimeSignature;
use crate::transport::{every_state, handled, signature_report, EngineView};

verus! {

/// What is gathered is mentioned or kept: none of it is lost and none is mentioned twice. It is
/// mentioned when there is some and long enough has passed since the last time, and not before.
pub proof fn nothing_gathered_is_lost(before: Gathered, more: u64, now: Nanos, every: Nanos)
    requires
        before.count + more <= u64::MAX,
    ensures
        ({
            let (told, left) = gathered(before, more, now, every);
            let said: int = match told {
                Some(count) => count as int,
                None => 0,
            };
            &&& said + left.count == before.count + more
            &&& told is Some <==> before.count + more > 0 && now >= before.last + every || (
            before.count + more > 0 && every == 0)
            &&& told is Some ==> left.count == 0 && left.last == now
            &&& told is None ==> left.last == before.last
        }),
{
}

/// The surface gets as many clock pulses as the engine counts, however often it is asked: over any
/// two passes together as many as over one. A pass with no report gives none.
pub proof fn clock_pulses_add_up(sent: u64, first: u64, second: u64)
    requires
        sent <= first <= second,
        second - sent <= u32::MAX,
    ensures
        clock_due(None, sent) == (0u32, sent),
        clock_due(Some(first), sent).0 == first - sent,
        clock_due(Some(first), sent).1 == first,
        clock_due(Some(first), sent).0 + clock_due(
            Some(second),
            clock_due(Some(first), sent).1,
        ).0 == clock_due(Some(second), sent).0,
        clock_due(Some(second), clock_due(Some(first), sent).1).1 == second,
{
}

/// Samples the first so many reports say were held at full scale.
pub open spec fn held_in(events: Seq<Event>, to: int) -> int
    decreases to,
{
    if to <= 0 {
        0
    } else {
        held_in(events, to - 1) + (match events[to - 1] {
            Event::Clipped { samples } => samples as int,
            _ => 0,
        })
    }
}

/// Frames the first so many reports say were missing.
pub open spec fn missing_in(events: Seq<Event>, to: int) -> int
    decreases to,
{
    if to <= 0 {
        0
    } else {
        missing_in(events, to - 1) + (match events[to - 1] {
            Event::Xrun { frames } => frames as int,
            _ => 0,
        })
    }
}

/// Reports add up to what they say: every held sample and every missing frame is counted.
pub proof fn reports_add_up(events: Seq<Event>, to: int)
    requires
        0 <= to <= events.len(),
        held_in(events, to) <= u32::MAX,
        missing_in(events, to) <= u64::MAX,
    ensures
        added_up(events, to).clipped == held_in(events, to),
        added_up(events, to).short_frames == missing_in(events, to),
    decreases to,
{
    if to > 0 {
        sums_are_counts(events, to - 1);
        reports_add_up(events, to - 1);
    }
}

/// Of the clock's counts the last one stands, and where there is none there is none.
pub proof fn the_last_count_stands(events: Seq<Event>, to: int, last: int)
    requires
        0 <= to <= events.len(),
        -1 <= last < to,
        last >= 0 ==> events[last] is Clock,
        forall|j: int| last < j < to ==> !((#[trigger] events[j]) is Clock),
    ensures
        added_up(events, to).clock_total == (if last >= 0 {
            Some(events[last]->Clock_total)
        } else {
            None
        }),
    decreases to,
{
    if to > 0 && last < to - 1 {
        assert(!(events[to - 1] is Clock));
        the_last_count_stands(events, to - 1, last);
    }
}

/// Of a save's answers the last one stands, and where there is none there is none.
pub proof fn the_last_answer_stands(events: Seq<Event>, to: int, last: int)
    requires
        0 <= to <= events.len(),
        -1 <= last < to,
        last >= 0 ==> events[last] is SnapshotComplete,
        forall|j: int| last < j < to ==> !((#[trigger] events[j]) is SnapshotComplete),
    ensures
        added_up(events, to).answered == (if last >= 0 {
            Some(
                (
                    events[last]->SnapshotComplete_request,
                    events[last]->SnapshotComplete_clips,
                    events[last]->SnapshotComplete_expected,
                ),
            )
        } else {
            None
        }),
    decreases to,
{
    if to > 0 && last < to - 1 {
        assert(!(events[to - 1] is SnapshotComplete));
        the_last_answer_stands(events, to - 1, last);
    }
}

/// What is counted is never less than nothing.
proof fn sums_are_counts(events: Seq<Event>, to: int)
    ensures
        0 <= held_in(events, to),
        0 <= missing_in(events, to),
    decreases to,
{
    if to > 0 {
        sums_are_counts(events, to - 1);
    }
}

/// A save that waits is settled by its own answer or by its deadline, and by nothing else. What is
/// written is what was set when it was asked for, to the pad it was asked for.
pub proof fn a_save_waits_for_its_own_answer(
    save: PendingSave,
    answered: Option<(u32, u32, u32)>,
    now: Nanos,
)
    ensures
        ({
            let (left, outcome) = save_resolved(Some(save), answered, now);
            let own = answered matches Some(answer) && answer.0 == save.request;
            &&& outcome is Answered <==> own
            &&& outcome is Expired <==> !own && now >= save.deadline
            &&& outcome is Waiting <==> !own && now < save.deadline
            &&& outcome is Waiting ==> left == Some(save)
            &&& !(outcome is Waiting) ==> left is None
            &&& outcome matches SaveOutcome::Answered(found) ==> found.addr == save.addr
                && found.settings == save.settings && answered == Some(
                (save.request, found.clips, found.expected),
            )
            &&& outcome matches SaveOutcome::Expired(addr) ==> addr == save.addr
        }),
        save_resolved(None, answered, now).0 is None,
        save_resolved(None, answered, now).1 is Waiting,
{
}

/// A save is given the snapshots that answer it, all of them and in order, and no other.
pub proof fn a_save_gets_its_own_snapshots<S>(snapshots: Seq<Snapshot<S>>, request: u32, to: int)
    requires
        0 <= to <= snapshots.len(),
    ensures
        answering(snapshots, request, to) == snapshots.take(to).filter(
            |snapshot: Snapshot<S>| snapshot.request == request,
        ),
    decreases to,
{
    let own = |snapshot: Snapshot<S>| snapshot.request == request;
    reveal(Seq::filter);
    if to > 0 {
        a_save_gets_its_own_snapshots(snapshots, request, to - 1);
        assert(snapshots.take(to).drop_last() =~= snapshots.take(to - 1));
        assert(snapshots.take(to).last() == snapshots[to - 1]);
    } else {
        assert(snapshots.take(to) =~= Seq::empty());
    }
}

/// Losing a report of a pad, of the tempo or of the signature asks the engine for everything again,
/// behind what waits. Losing any other asks for nothing: a bar, a beat, a clock count and the like
/// are gone once they have passed.
pub proof fn what_a_resync_repairs_is_asked_again(
    queued: Seq<Work>,
    dropped: Seq<u64>,
    seen: Seq<u64>,
    kind: EventKind,
)
    requires
        0 <= kind.place() < 16,
        dropped.len() == 16,
        seen.len() == 16,
    ensures
        dropped[kind.place()] > seen[kind.place()] && (kind is SlotChanged || kind is Tempo
            || kind is TempoRejected || kind is TimeSignature || kind is TimeSignatureRejected)
            ==> asking_again(queued, dropped, seen) == queued.push(Work::Command(Command::Resync)),
        (forall|i: int| 0 <= i < 16 && i != kind.place() ==> #[trigger] dropped[i] <= seen[i]) && (
        kind is Bar || kind is Beat || kind is Clock || kind is ClipRecorded || kind is ClipReleased
            || kind is Clipped || kind is Xrun || kind is RecordingRefused || kind is RecordBufferLow
            || kind is LoadRefused || kind is SnapshotComplete) ==> asking_again(
            queued,
            dropped,
            seen,
        ) == queued,
{
    crate::event::kinds_have_their_own_place(kind, kind_at(kind.place()));
    if exists|i: int| 0 <= i < 16 && dropped[i] > seen[i] && (#[trigger] kind_at(i)).replayed() {
        let i = choose|i: int|
            0 <= i < 16 && dropped[i] > seen[i] && (#[trigger] kind_at(i)).replayed();
        assert(dropped[i] > seen[i]);
    }
}

/// Every kind of report that was lost is named, with how many were, and no other.
pub proof fn every_loss_is_named(now: Seq<u64>, seen: Seq<u64>, to: int, kind: EventKind, count: u64)
    requires
        0 <= kind.place() < to <= 16,
        now.len() == 16,
        seen.len() == 16,
    ensures
        dropped_since(now, seen, to).contains((kind, count)) <==> count > 0 && now[kind.place()]
            - seen[kind.place()] == count,
    decreases to,
{
    let place = kind.place();
    crate::event::kinds_have_their_own_place(kind, kind_at(place));
    let all = dropped_since(now, seen, to);
    let rest = dropped_since(now, seen, to - 1);
    let named = (kind, count);
    losses_are_places(now, seen, to - 1);
    losses_are_places(now, seen, to);
    if place < to - 1 {
        every_loss_is_named(now, seen, to - 1, kind, count);
    }
    if rest.contains(named) {
        let i = choose|i: int| 0 <= i < rest.len() && rest[i] == named;
        assert(all[i] == named);
    }
    if all.contains(named) {
        let i = choose|i: int| 0 <= i < all.len() && all[i] == named;
        if i < rest.len() {
            assert(rest[i] == named);
            assert(rest.contains(named));
        }
        assert(is_loss(now, seen, to, all[i]));
    }
    if place == to - 1 && now[place] > seen[place] {
        assert(all[all.len() - 1] == (kind_at(place), (now[place] - seen[place]) as u64));
    }
}

/// Whether a loss is one of a kind before a place, with how many were lost.
spec fn is_loss(now: Seq<u64>, seen: Seq<u64>, to: int, lost: (EventKind, u64)) -> bool {
    let place = lost.0.place();
    0 <= place < to && lost.1 == now[place] - seen[place] && lost.1 > 0
}

/// Losses before a place are of kinds before it.
proof fn losses_are_places(now: Seq<u64>, seen: Seq<u64>, to: int)
    requires
        to <= 16,
    ensures
        forall|i: int|
            #![trigger dropped_since(now, seen, to)[i]]
            0 <= i < dropped_since(now, seen, to).len() ==> is_loss(
                now,
                seen,
                to,
                dropped_since(now, seen, to)[i],
            ),
    decreases to,
{
    if to > 0 {
        losses_are_places(now, seen, to - 1);
        every_place_has_a_kind(to - 1);
        let rest = dropped_since(now, seen, to - 1);
        let all = dropped_since(now, seen, to);
        assert forall|i: int| 0 <= i < all.len() implies is_loss(now, seen, to, #[trigger] all[i]) by {
            if i < rest.len() {
                assert(all[i] == rest[i]);
                assert(is_loss(now, seen, to - 1, rest[i]));
            }
        }
    }
}

/// Every place of the per-kind counts belongs to a kind.
proof fn every_place_has_a_kind(place: int)
    requires
        0 <= place < 16,
    ensures
        kind_at(place).place() == place,
{
    let kinds = seq![
        EventKind::SlotChanged,
        EventKind::Bar,
        EventKind::Clock,
        EventKind::Beat,
        EventKind::ClipRecorded,
        EventKind::ClipReleased,
        EventKind::Tempo,
        EventKind::TimeSignature,
        EventKind::RecordingRefused,
        EventKind::RecordBufferLow,
        EventKind::Clipped,
        EventKind::Xrun,
        EventKind::TempoRejected,
        EventKind::TimeSignatureRejected,
        EventKind::LoadRefused,
        EventKind::SnapshotComplete,
    ];
    assert(exists|i: int| 0 <= i < 16 && (#[trigger] kinds[i]).place() == place) by {
        assert(kinds[0].place() == place || kinds[1].place() == place || kinds[2].place() == place
            || kinds[3].place() == place || kinds[4].place() == place || kinds[5].place() == place
            || kinds[6].place() == place || kinds[7].place() == place || kinds[8].place() == place
            || kinds[9].place() == place || kinds[10].place() == place || kinds[11].place() == place
            || kinds[12].place() == place || kinds[13].place() == place || kinds[14].place()
            == place || kinds[15].place() == place);
    }
}

/// A surface that has lost reports is put right by asking for everything again: once it has taken
/// what the engine answers, it shows every pad as it is, and the tempo and the signature the
/// transport runs at.
pub proof fn a_resync_puts_the_surface_right<S>(
    v: ControllerView,
    engine: EngineView<S>,
    after: EngineView<S>,
    events: Seq<Event>,
    now: Nanos,
)
    requires
        v.wf(),
        engine.wf(),
        handled(engine, Command::Resync, after, events),
    ensures
        after == engine,
        ({
            let w = informed(v, events, now, events.len() as int);
            &&& w.session == engine.session
            &&& w.tempo == engine.grid.tempo_at()
            &&& w.tempo_before_request == engine.grid.tempo_at()
            &&& w.time_signature == engine.grid.signature_at()
            &&& w.confirmed_signature == engine.grid.signature_at()
        }),
{
    crate::promises::a_resync_changes_nothing(engine, after, events);
    let signature = engine.grid.signature_at();
    assert(events[0] == (Event::Tempo { bpm: engine.grid.tempo_at() }));
    assert(events[1] == signature_report(engine.grid));
    let first = informed(v, events, now, 1);
    assert(informed(v, events, now, 0) == v);
    assert(first == v.takes_report(events[0], now));
    let second = informed(v, events, now, 2);
    assert(second == first.takes_report(events[1], now));
    assert(TimeSignature::of(signature.beats(), signature.unit()) == signature);
    assert(second.session == v.session);
    assert forall|i: int| 0 <= i < 64 implies #[trigger] events[i + 2] == (Event::SlotChanged {
        addr: SlotAddr::at(i),
        state: engine.session[i],
    }) by {
        assert(every_state(engine.session)[i] == events[i + 2]);
    }
    pads_are_mirrored(v, engine, events, now, 64);
    assert(informed(v, events, now, 66).session =~= engine.session);
}

/// Taking in reports of the pads, one after another, mirrors each and touches nothing else.
proof fn pads_are_mirrored<S>(
    v: ControllerView,
    engine: EngineView<S>,
    events: Seq<Event>,
    now: Nanos,
    to: int,
)
    requires
        0 <= to <= 64,
        informed(v, events, now, 2).session.len() == 64,
        forall|i: int|
            0 <= i < 64 ==> #[trigger] events[i + 2] == (Event::SlotChanged {
                addr: SlotAddr::at(i),
                state: engine.session[i],
            }),
    ensures
        ({
            let from = informed(v, events, now, 2);
            let w = informed(v, events, now, to + 2);
            &&& w.session.len() == 64
            &&& w.tempo == from.tempo
            &&& w.tempo_before_request == from.tempo_before_request
            &&& w.time_signature == from.time_signature
            &&& w.confirmed_signature == from.confirmed_signature
            &&& forall|p: int| 0 <= p < to ==> #[trigger] w.session[p] == engine.session[p]
        }),
    decreases to,
{
    if to > 0 {
        pads_are_mirrored(v, engine, events, now, to - 1);
        places_are_addresses(SlotAddr::at(to - 1), to - 1);
        assert(events[(to - 1) + 2] == (Event::SlotChanged {
            addr: SlotAddr::at(to - 1),
            state: engine.session[to - 1],
        }));
    }
}

} // verus!
