//! Reports on their way from the audio thread, and what becomes of those that do not fit.

use vstd::prelude::*;
use vstd::string::*;

use crate::event::{Event, EventKind, EventSink};
use crate::lane::{lane, Inbox, Outbox};
use crate::queue::drain;
use crate::text::{decimal, digits};

verus! {

/// Reports the audio thread can queue before the control thread drains them.
pub const EVENT_SLOTS: usize = 4_096;

/// How many reports of each kind did not fit.
#[derive(Debug, Clone, Copy, PartialEq, Eq)]
pub struct DroppedEvents {
    counts: [u64; 16],
}

/// The kind at a place in a per-kind count.
pub open spec fn kind_at(place: int) -> EventKind {
    choose|kind: EventKind| kind.place() == place
}

/// The kinds before a place that were dropped since an earlier count, each with how many.
pub open spec fn dropped_since(now: Seq<u64>, seen: Seq<u64>, to: int) -> Seq<(EventKind, u64)>
    decreases to,
{
    if to <= 0 {
        Seq::empty()
    } else if now[to - 1] > seen[to - 1] {
        dropped_since(now, seen, to - 1).push(
            (kind_at(to - 1), (now[to - 1] - seen[to - 1]) as u64),
        )
    } else {
        dropped_since(now, seen, to - 1)
    }
}

impl DroppedEvents {
    /// The count of each kind, in order.
    pub closed spec fn view(&self) -> Seq<u64> {
        self.counts@
    }

    /// Nothing dropped.
    pub fn new() -> (r: Self)
        ensures
            r@ == Seq::new(16, |i: int| 0u64),
    {
        let counts: [u64; 16] = [0; 16];
        assert(counts@ =~= Seq::new(16, |i: int| 0u64));
        DroppedEvents { counts }
    }

    /// So many of each kind dropped.
    pub fn of(counts: [u64; 16]) -> (r: Self)
        ensures
            r@ == counts@,
    {
        DroppedEvents { counts }
    }

    /// Counts one more.
    pub fn note(&mut self, kind: EventKind)
        ensures
            old(self)@.len() == 16,
            final(self)@ == old(self)@.update(
                kind.place(),
                if old(self)@[kind.place()] < u64::MAX {
                    (old(self)@[kind.place()] + 1) as u64
                } else {
                    u64::MAX
                },
            ),
    {
        let index: usize = kind.index();
        self.counts[index] = self.counts[index].saturating_add(1);
    }

    /// Whether two counts are the same.
    pub fn same(&self, other: &Self) -> (r: bool)
        ensures
            r == (self@ == other@),
    {
        let mut index: usize = 0;
        while index < EventKind::COUNT
            invariant
                index <= 16,
                forall|i: int| 0 <= i < index ==> #[trigger] self@[i] == other@[i],
            decreases 16 - index,
        {
            if self.counts[index] != other.counts[index] {
                assert(self@[index as int] != other@[index as int]);
                return false;
            }
            index += 1;
        }
        assert(self@ =~= other@);
        true
    }

    /// What was dropped since an earlier count, kind by kind.
    pub fn since(&self, seen: &Self) -> (r: Vec<(EventKind, u64)>)
        ensures
            r@ == dropped_since(self@, seen@, 16),
    {
        let kinds: [EventKind; 16] = EventKind::all();
        let mut out: Vec<(EventKind, u64)> = Vec::new();
        let mut index: usize = 0;
        while index < EventKind::COUNT
            invariant
                index <= 16,
                forall|i: int| 0 <= i < 16 ==> (#[trigger] kinds@[i]).place() == i,
                out@ == dropped_since(self@, seen@, index as int),
            decreases 16 - index,
        {
            let now: u64 = self.counts[index];
            let before: u64 = seen.counts[index];
            if now > before {
                proof {
                    let kind = kinds@[index as int];
                    assert(kind.place() == index);
                    crate::event::kinds_have_their_own_place(kind, kind_at(index as int));
                }
                out.push((kinds[index], now - before));
            }
            index += 1;
        }
        out
    }

    /// Whether asking the engine again would put any of what was lost right.
    pub fn needs_resync(&self, seen: &Self) -> (r: bool)
        ensures
            r == (exists|i: int|
                0 <= i < 16 && self@[i] > seen@[i] && (#[trigger] kind_at(i)).replayed()),
    {
        let kinds: [EventKind; 16] = EventKind::all();
        let mut index: usize = 0;
        while index < EventKind::COUNT
            invariant
                index <= 16,
                forall|i: int| 0 <= i < 16 ==> (#[trigger] kinds@[i]).place() == i,
                forall|i: int|
                    0 <= i < index ==> !(self@[i] > seen@[i] && (#[trigger] kind_at(
                        i,
                    )).replayed()),
            decreases 16 - index,
        {
            proof {
                let kind = kinds@[index as int];
                assert(kind.place() == index);
                crate::event::kinds_have_their_own_place(kind, kind_at(index as int));
            }
            if self.counts[index] > seen.counts[index] && kinds[index].is_replayed() {
                assert(kind_at(index as int).replayed());
                return true;
            }
            index += 1;
        }
        false
    }
}

/// How a number of lost reports of a kind reads.
pub open spec fn lost_text(lost: (EventKind, u64)) -> Seq<char> {
    digits(lost.1 as int) + " "@ + lost.0.called() + (if lost.1 == 1 {
        ""@
    } else {
        "s"@
    })
}

/// How the first so many entries of a list of lost reports read.
pub open spec fn lost_texts(lost: Seq<(EventKind, u64)>, to: int) -> Seq<char>
    decreases to,
{
    if to <= 0 {
        ""@
    } else if to == 1 {
        lost_text(lost[0])
    } else {
        lost_texts(lost, to - 1) + ", "@ + lost_text(lost[to - 1])
    }
}

/// Names what was lost between two counts, as `1 slot change, 3 beats`.
pub fn lost_report(dropped: &DroppedEvents, seen: &DroppedEvents) -> (r: String)
    ensures
        r@ == lost_texts(
            dropped_since(dropped@, seen@, 16),
            dropped_since(dropped@, seen@, 16).len() as int,
        ),
{
    let lost: Vec<(EventKind, u64)> = dropped.since(seen);
    let mut text: String = String::from_str("");
    let mut index: usize = 0;
    proof {
        reveal_strlit("");
        assert(""@ =~= Seq::empty());
    }
    while index < lost.len()
        invariant
            index <= lost@.len(),
            text@ == lost_texts(lost@, index as int),
            ""@ == Seq::<char>::empty(),
        decreases lost@.len() - index,
    {
        let (kind, count) = lost[index];
        let ghost before = text@;
        if index > 0 {
            text.append(", ");
        }
        text.append(decimal(count).as_str());
        text.append(" ");
        text.append(kind.name());
        text.append(
            if count == 1 {
                ""
            } else {
                "s"
            },
        );
        proof {
            assert(lost@[index as int] == (kind, count));
            assert(text@ =~= lost_texts(lost@, index + 1));
        }
        index += 1;
    }
    text
}

/// Pushes engine reports onto a lane, counting any that do not fit.
pub struct Reports {
    out: Outbox<Event>,
    dropped: DroppedEvents,
    made: Ghost<Seq<Event>>,
}

impl Reports {
    /// The reports that fitted so far, in order.
    pub closed spec fn sent(&self) -> Seq<Event> {
        self.out@
    }

    /// How often there was no room.
    pub closed spec fn full(&self) -> int {
        self.out.full()
    }

    /// How many reports the lane holds.
    pub closed spec fn limit(&self) -> int {
        self.out.limit()
    }

    /// How many of each kind did not.
    pub closed spec fn lost(&self) -> Seq<u64> {
        self.dropped@
    }

    /// How many reports of each kind did not fit.
    pub fn dropped(&self) -> (r: DroppedEvents)
        ensures
            r@ == self.lost(),
    {
        self.dropped
    }
}

impl EventSink for Reports {
    closed spec fn log(&self) -> Seq<Event> {
        self.made@
    }

    fn event(&mut self, event: Event)
        ensures
            final(self).sent() == old(self).sent().push(event) && final(self).lost() == old(
                self,
            ).lost() && final(self).full() == old(self).full() || final(self).sent() == old(self).sent() && final(self).lost() == old(
                self,
            ).lost().update(
                event.sort().place(),
                if old(self).lost()[event.sort().place()] < u64::MAX {
                    (old(self).lost()[event.sort().place()] + 1) as u64
                } else {
                    u64::MAX
                },
            ) && final(self).full() == old(self).full() + 1 && old(self).sent().len() >= old(
                self,
            ).limit(),
            final(self).limit() == old(self).limit(),
    {
        if self.out.send(event).is_err() {
            self.dropped.note(event.kind());
        }
        self.made = Ghost(self.made@.push(event));
    }
}

/// Builds both ends of the reports' way.
pub fn reports() -> (r: (Reports, Inbox<Event>))
    ensures
        r.0.log().len() == 0,
        r.0.sent().len() == 0,
        r.0.lost() == Seq::new(16, |i: int| 0u64),
        r.0.full() == 0,
        r.0.limit() == EVENT_SLOTS,
        r.1@.len() == 0,
        r.1.empty() == 0,
        r.1.limit() == EVENT_SLOTS,
{
    let (out, inbox) = lane(EVENT_SLOTS);
    (Reports { out, dropped: DroppedEvents::new(), made: Ghost(Seq::empty()) }, inbox)
}

/// Takes everything reported since the last call, in order: until the lane is empty, or as much
/// of it as it holds.
pub fn drain_events(inbox: &mut Inbox<Event>) -> (r: Vec<Event>)
    ensures
        final(inbox)@ == old(inbox)@ + r@,
        r@.len() <= EVENT_SLOTS,
        final(inbox).empty() == (if r@.len() < EVENT_SLOTS {
            old(inbox).empty() + 1
        } else {
            old(inbox).empty()
        }),
        final(inbox).limit() == old(inbox).limit(),
{
    drain(inbox, EVENT_SLOTS)
}

} // verus!
