//! Steps taken one after the other, each with its reports.

use vstd::prelude::*;

use crate::event::Event;

verus! {

/// What one step of a chain does: a state, which step it is, the state after and the reports.
pub type Step<T> = spec_fn(T, int, T, Seq<Event>) -> bool;

/// Whether taking the first `count` steps in order leads from one state to another with the
/// given reports.
pub open spec fn chained<T>(step: Step<T>, from: T, count: int, to: T, events: Seq<Event>) -> bool
    decreases count,
{
    if count <= 0 {
        to == from && events == Seq::<Event>::empty()
    } else {
        exists|mid: T, before: Seq<Event>, here: Seq<Event>|
            #[trigger] linked(mid, before, here) && events == before + here && chained(
                step,
                from,
                count - 1,
                mid,
                before,
            ) && step(mid, count - 1, to, here)
    }
}

/// Marks the state and the reports between two steps.
pub open spec fn linked<T>(mid: T, before: Seq<Event>, here: Seq<Event>) -> bool {
    true
}

/// No step leads nowhere.
pub proof fn chain_starts<T>(step: Step<T>, from: T)
    ensures
        chained(step, from, 0, from, Seq::<Event>::empty()),
{
}

/// A chain goes on by one step.
pub proof fn chain_extends<T>(
    step: Step<T>,
    from: T,
    count: int,
    mid: T,
    before: Seq<Event>,
    to: T,
    here: Seq<Event>,
)
    requires
        0 <= count,
        chained(step, from, count, mid, before),
        step(mid, count, to, here),
    ensures
        chained(step, from, count + 1, to, before + here),
{
    assert(linked(mid, before, here));
}

/// What holds before the first step and is kept by every step holds after the last one.
pub proof fn chain_keeps<T>(
    step: Step<T>,
    from: T,
    count: int,
    to: T,
    events: Seq<Event>,
    inv: spec_fn(T, int) -> bool,
)
    requires
        chained(step, from, count, to, events),
        0 <= count,
        inv(from, 0),
        forall|mid: T, i: int, next: T, here: Seq<Event>|
            0 <= i < count && #[trigger] inv(mid, i) && #[trigger] step(mid, i, next, here) ==> inv(
                next,
                i + 1,
            ),
    ensures
        inv(to, count),
    decreases count,
{
    if count > 0 {
        let (mid, before, here) = choose|mid: T, before: Seq<Event>, here: Seq<Event>|
            #[trigger] linked(mid, before, here) && events == before + here && chained(
                step,
                from,
                count - 1,
                mid,
                before,
            ) && step(mid, count - 1, to, here);
        chain_keeps(step, from, count - 1, mid, before, inv);
    }
}

/// What holds of a state and of what was reported before the first step, and is kept by every step
/// with its reports, holds after the last one.
pub proof fn chain_keeps_told<T>(
    step: Step<T>,
    from: T,
    count: int,
    to: T,
    events: Seq<Event>,
    inv: spec_fn(T, int, Seq<Event>) -> bool,
)
    requires
        chained(step, from, count, to, events),
        0 <= count,
        inv(from, 0, Seq::<Event>::empty()),
        forall|mid: T, i: int, told: Seq<Event>, next: T, here: Seq<Event>|
            0 <= i < count && #[trigger] inv(mid, i, told) && #[trigger] step(mid, i, next, here)
                ==> inv(next, i + 1, told + here),
    ensures
        inv(to, count, events),
    decreases count,
{
    if count > 0 {
        let (mid, before, here) = choose|mid: T, before: Seq<Event>, here: Seq<Event>|
            #[trigger] linked(mid, before, here) && events == before + here && chained(
                step,
                from,
                count - 1,
                mid,
                before,
            ) && step(mid, count - 1, to, here);
        chain_keeps_told(step, from, count - 1, mid, before, inv);
    }
}

} // verus!
