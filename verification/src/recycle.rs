//! Returning shared clips to the engine after a reader is done with them.
//!
//! Dropping the last reference to a clip deallocates, which the audio thread must not do.
//! The engine reclaims clips nobody else holds directly. Clips someone is still reading
//! go through here instead.
//!
//! Run [`Recycler`] off the audio thread.

use std::sync::Arc;

use vstd::multiset::Multiset;
use vstd::prelude::*;
use vstd::seq_lib::*;

use crate::clip::Clip;
use crate::lane::{lane, Inbox, Outbox};
use crate::readers::{sole, Readers};

verus! {

/// Clips the engine can hand over before the recycler drains any. One buffer exists per
/// pad, so 128 covers the whole population.
pub const SLOTS: usize = 128;

/// A clip on its way between threads, whose storage is of its own width.
#[derive(Debug)]
pub struct Parcel<S>(Arc<Clip<S>>);

impl<S> Parcel<S> {
    #[verifier::type_invariant]
    spec fn sound(self) -> bool {
        self.0@.wf()
    }

    /// The clip inside.
    pub closed spec fn inside(self) -> Arc<Clip<S>> {
        self.0
    }

    /// Wraps a clip up.
    pub fn new(clip: Arc<Clip<S>>) -> (r: Self)
        requires
            clip@.wf(),
        ensures
            r.inside() == clip,
    {
        Parcel(clip)
    }

    /// Takes the clip out again.
    pub fn open(self) -> (r: Arc<Clip<S>>)
        ensures
            r == self.inside(),
            r@.wf(),
    {
        proof {
            use_type_invariant(&self);
        }
        self.0
    }
}

/// The engine's side of the loop.
#[verifier::reject_recursive_types(S)]
pub struct Retirement<S> {
    retired: Outbox<Parcel<S>>,
    returned: Inbox<Parcel<S>>,
    /// Clips the ring could not take. Held rather than dropped, since dropping the last
    /// reference on the audio thread would allocate.
    pending: Vec<Parcel<S>>,
    /// Every clip given up so far.
    given: Ghost<Seq<Arc<Clip<S>>>>,
}

/// The clips inside a list of parcels.
pub open spec fn unpacked<S>(parcels: Seq<Parcel<S>>) -> Seq<Arc<Clip<S>>> {
    parcels.map_values(|parcel: Parcel<S>| parcel.inside())
}

impl<S> Retirement<S> {
    /// Every clip given up so far, in order.
    pub closed spec fn view(&self) -> Seq<Arc<Clip<S>>> {
        self.given@
    }

    /// The clips handed over to the other side so far.
    pub closed spec fn handed(&self) -> Seq<Arc<Clip<S>>> {
        unpacked(self.retired@)
    }

    /// The clips given up but not yet handed over.
    pub closed spec fn kept(&self) -> Seq<Arc<Clip<S>>> {
        unpacked(self.pending@)
    }

    /// The clips that came back so far.
    pub closed spec fn back(&self) -> Seq<Arc<Clip<S>>> {
        unpacked(self.returned@)
    }

    /// How often there was no room for a clip to be handed over.
    pub closed spec fn full(&self) -> int {
        self.retired.full()
    }

    /// How often none was found to have come back.
    pub closed spec fn empty(&self) -> int {
        self.returned.empty()
    }

    /// How many clips can be on the way to the other side, and on the way back.
    pub closed spec fn limits(&self) -> (int, int) {
        (self.retired.limit(), self.returned.limit())
    }

    /// Every clip given up was handed over or is kept: none is ever dropped.
    pub open spec fn wf(&self) -> bool {
        self@.to_multiset() == self.handed().to_multiset().add(self.kept().to_multiset())
    }

    /// Gives up a clip. Never drops it, whatever the queues are doing.
    pub fn retire(&mut self, clip: Arc<Clip<S>>)
        requires
            old(self).wf(),
            clip@.wf(),
        ensures
            final(self).wf(),
            final(self)@ == old(self)@.push(clip),
            final(self).back() == old(self).back(),
            final(self).empty() == old(self).empty(),
            final(self).limits() == old(self).limits(),
            final(self).full() > old(self).full() ==> old(self).handed().len() >= old(
                self,
            ).limits().0,
            final(self).handed() == old(self).handed().push(clip) && final(self).kept() == old(
                self,
            ).kept() && final(self).full() == old(self).full() || final(self).handed() == old(self).handed() && final(self).kept() == old(
                self,
            ).kept().push(clip) && final(self).full() == old(self).full() + 1,
    {
        let ghost outgoing = clip;
        let parcel = Parcel::new(clip);
        let ghost wrapped = parcel;
        match self.retired.send(parcel) {
            Ok(()) => {
                assert(self.handed() =~= old(self).handed().push(outgoing));
            },
            Err(parcel) => {
                self.pending.push(parcel);
                assert(self.kept() =~= old(self).kept().push(outgoing));
            },
        }
        self.given = Ghost(self.given@.push(outgoing));
        proof {
            old(self)@.to_multiset_ensures();
            old(self).handed().to_multiset_ensures();
            old(self).kept().to_multiset_ensures();
            assert(self@.to_multiset() =~= self.handed().to_multiset().add(
                self.kept().to_multiset(),
            ));
        }
    }

    /// Retries everything that did not fit, the latest first, until the ring is full again.
    pub fn retry(&mut self)
        requires
            old(self).wf(),
        ensures
            final(self).wf(),
            final(self)@ == old(self)@,
            final(self).back() == old(self).back(),
            final(self).empty() == old(self).empty(),
            final(self).limits() == old(self).limits(),
            final(self).full() > old(self).full() ==> final(self).handed().len() >= old(
                self,
            ).limits().0,
            final(self).kept().len() <= old(self).kept().len(),
            final(self).kept() == old(self).kept().take(final(self).kept().len() as int),
            final(self).full() == (if final(self).kept().len() > 0 {
                old(self).full() + 1
            } else {
                old(self).full()
            }),
    {
        assert(self.kept() =~= old(self).kept().take(self.kept().len() as int));
        while self.pending.len() > 0
            invariant_except_break
                self.full() == old(self).full(),
            invariant
                self.wf(),
                self@ == old(self)@,
                self.back() == old(self).back(),
                self.empty() == old(self).empty(),
                self.limits() == old(self).limits(),
                self.kept().len() <= old(self).kept().len(),
                self.kept() == old(self).kept().take(self.kept().len() as int),
            ensures
                self.full() > old(self).full() ==> self.handed().len() >= old(self).limits().0,
                self.full() == (if self.kept().len() > 0 {
                    old(self).full() + 1
                } else {
                    old(self).full()
                }),
            decreases self.pending@.len(),
        {
            let ghost handed = self.handed();
            let ghost kept = self.kept();
            let ghost pending = self.pending@;
            let parcel = match self.pending.pop() {
                Some(parcel) => parcel,
                None => {
                    break ;
                },
            };
            let ghost clip = parcel.inside();
            assert(kept.last() == clip);
            assert(self.kept() =~= kept.drop_last());
            match self.retired.send(parcel) {
                Ok(()) => {
                    proof {
                        assert(self.handed() =~= handed.push(clip));
                        handed.to_multiset_ensures();
                        kept.drop_last().to_multiset_ensures();
                        assert(kept =~= kept.drop_last().push(clip));
                        assert(self@.to_multiset() =~= self.handed().to_multiset().add(
                            self.kept().to_multiset(),
                        ));
                        assert(self.kept() =~= old(self).kept().take(self.kept().len() as int));
                    }
                },
                Err(parcel) => {
                    self.pending.push(parcel);
                    assert(self.kept() =~= kept);
                    assert(self.handed() =~= handed);
                    break ;
                },
            }
        }
    }

    /// Takes back the next clip the recycler has released, if there is one.
    pub fn next_returned(&mut self) -> (r: Option<Arc<Clip<S>>>)
        requires
            old(self).wf(),
        ensures
            final(self).wf(),
            final(self)@ == old(self)@,
            final(self).kept() == old(self).kept(),
            final(self).handed() == old(self).handed(),
            final(self).full() == old(self).full(),
            final(self).limits() == old(self).limits(),
            match r {
                Some(clip) => clip@.wf() && final(self).back() == old(self).back().push(clip)
                    && final(self).empty() == old(self).empty(),
                None => final(self).back() == old(self).back() && final(self).empty() == old(
                    self,
                ).empty() + 1,
            },
    {
        match self.returned.take() {
            Some(parcel) => {
                assert(self.back() =~= old(self).back().push(parcel.inside()));
                Some(parcel.open())
            },
            None => None,
        }
    }

    /// Takes back every clip the recycler has released, and retries anything parked.
    pub fn reclaim(&mut self) -> (r: Vec<Arc<Clip<S>>>)
        requires
            old(self).wf(),
        ensures
            final(self).wf(),
            final(self)@ == old(self)@,
            final(self).back() == old(self).back() + r@,
            all_sound(r@),
            r@.len() <= SLOTS,
            final(self).empty() == (if r@.len() < SLOTS {
                old(self).empty() + 1
            } else {
                old(self).empty()
            }),
            final(self).limits() == old(self).limits(),
            final(self).full() == (if final(self).kept().len() > 0 {
                old(self).full() + 1
            } else {
                old(self).full()
            }),
            final(self).kept() == old(self).kept().take(final(self).kept().len() as int),
            final(self).kept().len() <= old(self).kept().len(),
    {
        self.retry();
        let mut out: Vec<Arc<Clip<S>>> = Vec::new();
        // The ring holds a bounded number, so a pass takes at most that many.
        let mut left: usize = SLOTS;
        assert(self.back() =~= old(self).back() + out@);
        while left > 0
            invariant
                self.wf(),
                self@ == old(self)@,
                self.back() == old(self).back() + out@,
                self.empty() == old(self).empty(),
                self.limits() == old(self).limits(),
                self.kept().len() <= old(self).kept().len(),
                self.kept() == old(self).kept().take(self.kept().len() as int),
                self.full() == (if self.kept().len() > 0 {
                    old(self).full() + 1
                } else {
                    old(self).full()
                }),
                out@.len() + left == SLOTS,
                all_sound(out@),
            decreases left,
        {
            match self.next_returned() {
                Some(clip) => {
                    out.push(clip);
                    assert(self.back() =~= old(self).back() + out@);
                },
                None => {
                    return out;
                },
            }
            left -= 1;
        }
        out
    }

    /// Clips handed over but not yet on the ring.
    pub fn parked(&self) -> (r: usize)
        ensures
            r == self.kept().len(),
    {
        self.pending.len()
    }
}

/// Where a retired clip goes.
#[derive(Debug, Clone, Copy, PartialEq, Eq, Structural)]
pub enum Placed {
    /// Back to the engine.
    Back,
    /// To whoever lent it.
    Lender,
    /// Nowhere yet: it is tried again on the next pass.
    Held,
}

/// Where a retired clip goes: nowhere while somebody reads it, to its lender if it was lent, and
/// otherwise back to the engine as soon as there is room.
pub open spec fn placing(borrowed: bool, alone: bool, room: bool) -> Placed {
    if !alone {
        Placed::Held
    } else if borrowed {
        Placed::Lender
    } else if room {
        Placed::Back
    } else {
        Placed::Held
    }
}

/// Where a retired clip goes, given whether nobody else was found to be reading it and whether
/// there was room to send it.
pub fn place<S>(candidate: &Clip<S>, alone: bool, room: bool) -> (r: Placed)
    ensures
        r == placing(candidate@.borrowed, alone, room),
{
    if !alone {
        Placed::Held
    } else if candidate.borrowed {
        // Storage the caller lent goes back to the caller, not into engine pools.
        Placed::Lender
    } else if room {
        Placed::Back
    } else {
        Placed::Held
    }
}

/// Those of the first clips that go to one place, in order.
pub open spec fn those<S>(
    clips: Seq<Arc<Clip<S>>>,
    alone: Seq<bool>,
    room: Seq<bool>,
    place: Placed,
    to: int,
) -> Seq<Arc<Clip<S>>>
    decreases to,
{
    if to <= 0 {
        Seq::empty()
    } else if placing(clips[to - 1]@.borrowed, alone[to - 1], room[to - 1]) == place {
        those(clips, alone, room, place, to - 1).push(clips[to - 1])
    } else {
        those(clips, alone, room, place, to - 1)
    }
}

/// How many of the first clips could have gone back to the engine but for want of room.
pub open spec fn crowded<S>(
    clips: Seq<Arc<Clip<S>>>,
    alone: Seq<bool>,
    room: Seq<bool>,
    to: int,
) -> int
    decreases to,
{
    if to <= 0 {
        0
    } else {
        crowded(clips, alone, room, to - 1) + (if alone[to - 1] && !clips[to - 1]@.borrowed
            && !room[to - 1] {
            1int
        } else {
            0
        })
    }
}

/// What is found out of later clips changes nothing for the first ones.
proof fn those_look_ahead_no_further<S>(
    clips: Seq<Arc<Clip<S>>>,
    alone: Seq<bool>,
    room: Seq<bool>,
    a: bool,
    b: bool,
    to: int,
)
    requires
        0 <= to <= alone.len(),
        alone.len() == room.len(),
    ensures
        forall|place: Placed| #[trigger]
            those(clips, alone.push(a), room.push(b), place, to) == those(
                clips,
                alone,
                room,
                place,
                to,
            ),
        crowded(clips, alone.push(a), room.push(b), to) == crowded(clips, alone, room, to),
    decreases to,
{
    if to > 0 {
        those_look_ahead_no_further(clips, alone, room, a, b, to - 1);
        assert forall|place: Placed| #[trigger]
            those(clips, alone.push(a), room.push(b), place, to) == those(
                clips,
                alone,
                room,
                place,
                to,
            ) by {
            assert(those(clips, alone.push(a), room.push(b), place, to - 1) == those(
                clips,
                alone,
                room,
                place,
                to - 1,
            ));
        }
    }
}

/// The other side of the loop. Run it anywhere except the audio thread.
#[verifier::reject_recursive_types(S)]
pub struct Recycler<S> {
    retired: Inbox<Parcel<S>>,
    returned: Outbox<Parcel<S>>,
    /// Clips nothing has finished reading yet.
    waiting: Vec<Arc<Clip<S>>>,
    /// Storage the caller lent the engine, which the caller keeps.
    borrowed: Vec<Arc<Clip<S>>>,
    /// Who else holds the clips.
    readers: Readers,
}

/// Whether the storage of every clip in a list is of its own width.
pub open spec fn all_sound<S>(clips: Seq<Arc<Clip<S>>>) -> bool {
    forall|i: int| 0 <= i < clips.len() ==> (#[trigger] clips[i])@.wf()
}

impl<S> Recycler<S> {
    /// Every clip that came in so far, in order.
    pub closed spec fn arrived(&self) -> Seq<Arc<Clip<S>>> {
        unpacked(self.retired@)
    }

    /// Every clip sent back to the engine so far, in order.
    pub closed spec fn sent_back(&self) -> Seq<Arc<Clip<S>>> {
        unpacked(self.returned@)
    }

    /// How often no further clip was found to have come in.
    pub closed spec fn empty(&self) -> int {
        self.retired.empty()
    }

    /// How many clips can be on the way from the engine, and on the way back to it.
    pub closed spec fn limits(&self) -> (int, int) {
        (self.retired.limit(), self.returned.limit())
    }

    /// Whether nothing has come in, gone out or been asked yet.
    pub open spec fn idle(&self) -> bool {
        &&& self.arrived().len() == 0
        &&& self.sent_back().len() == 0
        &&& self.held_back().len() == 0
        &&& self.lent().len() == 0
        &&& self.asked().len() == 0
        &&& self.empty() == 0
        &&& self.full() == 0
    }

    /// How often there was no room to send one back.
    pub closed spec fn full(&self) -> int {
        self.returned.full()
    }

    /// Whether nobody else was reading a clip, each time it was asked.
    pub closed spec fn asked(&self) -> Seq<bool> {
        self.readers@
    }

    /// The clips nothing has finished reading.
    pub closed spec fn held_back(&self) -> Seq<Arc<Clip<S>>> {
        self.waiting@
    }

    /// The clips kept for whoever lent them.
    pub closed spec fn lent(&self) -> Seq<Arc<Clip<S>>> {
        self.borrowed@
    }

    /// Every clip kept is sound, and those kept for a lender were lent.
    pub open spec fn wf(&self) -> bool {
        &&& all_sound(self.held_back())
        &&& all_sound(self.lent())
        &&& forall|i: int| 0 <= i < self.lent().len() ==> (#[trigger] self.lent()[i])@.borrowed
    }

    /// Where every clip is: everything that came in was sent back, is kept for whoever lent
    /// it, or is held back.
    pub open spec fn accounts(&self) -> Multiset<Arc<Clip<S>>> {
        self.sent_back().to_multiset().add(self.lent().to_multiset()).add(
            self.held_back().to_multiset(),
        )
    }

    /// Whether clips were taken in: until no further one was found to have come in, or as many as
    /// can be on the way.
    pub open spec fn took_in(&self, after: &Self) -> bool {
        let count = after.arrived().len() - self.arrived().len();
        &&& self.arrived().is_prefix_of(after.arrived())
        &&& count <= SLOTS
        &&& after.empty() == (if count < SLOTS {
            self.empty() + 1
        } else {
            self.empty()
        })
    }

    /// Whether a pass took in some clips and put each where it goes, in order. The clips are
    /// those that were held back and those that came in. `alone` says of each whether nobody else
    /// was found to be reading it, and `room` whether there was room to send it. Both rest with
    /// the other threads: the first are the answers that were given, and each want of room is one
    /// that was found.
    pub open spec fn sorted_out(&self, after: &Self, alone: Seq<bool>, room: Seq<bool>) -> bool {
        let clips = self.held_back() + after.arrived().skip(self.arrived().len() as int);
        let count = clips.len() as int;
        &&& alone.len() == count
        &&& after.asked() == self.asked() + alone
        &&& after.sent_back() == self.sent_back() + those(clips, alone, room, Placed::Back, count)
        &&& after.lent() == self.lent() + those(clips, alone, room, Placed::Lender, count)
        &&& after.held_back() == those(clips, alone, room, Placed::Held, count)
        &&& after.full() == self.full() + crowded(clips, alone, room, count)
        &&& after.limits() == self.limits()
        &&& after.full() > self.full() ==> after.sent_back().len() >= self.limits().1
    }

    /// Sends back every retired clip nothing is reading any more. Clips still held are
    /// kept and retried, and do not block the ones behind them.
    ///
    /// Returns how many went back to the engine. Whether a clip is still being read, and
    /// whether there is room to send it, rests with the other threads; none is lost either
    /// way, none that was lent is sent back, and none that was not lent is kept for a lender.
    pub fn run(&mut self) -> (r: usize)
        requires
            old(self).wf(),
        ensures
            final(self).wf(),
            exists|alone: Seq<bool>, room: Seq<bool>| #[trigger]
                old(self).sorted_out(final(self), alone, room),
            final(self).accounts() == old(self).accounts().add(
                final(self).arrived().skip(old(self).arrived().len() as int).to_multiset(),
            ),
            old(self).took_in(final(self)),
            r == final(self).sent_back().len() - old(self).sent_back().len(),
            forall|i: int|
                old(self).sent_back().len() <= i < final(self).sent_back().len()
                    ==> !(#[trigger] final(self).sent_back()[i])@.borrowed,
    {
        self.collect();
        let ghost came = self.arrived().skip(old(self).arrived().len() as int);
        let ghost all = self.held_back();
        let ghost total = self.accounts();
        let mut candidates: Vec<Arc<Clip<S>>> = Vec::with_capacity(SLOTS);
        core::mem::swap(&mut candidates, &mut self.waiting);
        let count: usize = candidates.len();
        let mut returned: usize = 0;
        let ghost mut alones: Seq<bool> = Seq::empty();
        let ghost mut rooms: Seq<bool> = Seq::empty();
        proof {
            Seq::<Arc<Clip<S>>>::empty().to_multiset_ensures();
            assert(self.held_back() =~= Seq::empty());
            assert(self.accounts().add(candidates@.to_multiset()) =~= total);
            assert(all.skip(0) =~= all);
            assert(self.sent_back() =~= old(self).sent_back() + Seq::empty());
            assert(self.lent() =~= old(self).lent() + Seq::empty());
            assert(self.asked() =~= old(self).asked() + alones);
        }
        while candidates.len() > 0
            invariant
                self.wf(),
                all_sound(candidates@),
                count == all.len(),
                alones.len() == rooms.len(),
                alones.len() + candidates@.len() == count,
                candidates@ == all.skip(alones.len() as int),
                came == self.arrived().skip(old(self).arrived().len() as int),
                old(self).took_in(self),
                ({
                    let done = alones.len() as int;
                    &&& self.sent_back() == old(self).sent_back() + those(
                        all,
                        alones,
                        rooms,
                        Placed::Back,
                        done,
                    )
                    &&& self.lent() == old(self).lent() + those(
                        all,
                        alones,
                        rooms,
                        Placed::Lender,
                        done,
                    )
                    &&& self.held_back() == those(all, alones, rooms, Placed::Held, done)
                    &&& self.full() == old(self).full() + crowded(all, alones, rooms, done)
                    &&& self.asked() == old(self).asked() + alones
                    &&& self.limits() == old(self).limits()
                    &&& self.full() > old(self).full() ==> self.sent_back().len() >= old(
                        self,
                    ).limits().1
                }),
                self.accounts().add(candidates@.to_multiset()) == total,
                returned == self.sent_back().len() - old(self).sent_back().len(),
                forall|i: int|
                    old(self).sent_back().len() <= i < self.sent_back().len()
                        ==> !(#[trigger] self.sent_back()[i])@.borrowed,
                returned + candidates@.len() <= count,
            decreases candidates@.len(),
        {
            let ghost rest = candidates@;
            let ghost before = *self;
            let ghost done = alones.len() as int;
            let mut candidate: Arc<Clip<S>> = candidates.remove(0);
            let ghost clip = candidate;
            proof {
                assert(rest =~= seq![clip] + candidates@);
                lemma_multiset_commutative(seq![clip], candidates@);
                assert(seq![clip] =~= Seq::empty().push(clip));
                Seq::<Arc<Clip<S>>>::empty().to_multiset_ensures();
                before.sent_back().to_multiset_ensures();
                before.lent().to_multiset_ensures();
                before.held_back().to_multiset_ensures();
                assert(all[done] == clip);
                assert(candidates@ =~= all.skip(done + 1));
            }
            // Lending the value out succeeds only on the sole reference. Used as a refcount
            // test; nothing is changed through it.
            let alone: bool = sole(&mut self.readers, &mut candidate).is_some();
            let ghost mut room: bool = true;
            match place(&candidate, alone, true) {
                Placed::Held => {
                    self.waiting.push(candidate);
                    assert(self.held_back() == before.held_back().push(clip));
                },
                Placed::Lender => {
                    self.borrowed.push(candidate);
                    assert(self.lent() == before.lent().push(clip));
                },
                Placed::Back => {
                    match self.returned.send(Parcel::new(candidate)) {
                        Ok(()) => {
                            returned += 1;
                            assert(self.sent_back() =~= before.sent_back().push(clip));
                        },
                        Err(parcel) => {
                            proof {
                                room = false;
                            }
                            self.waiting.push(parcel.open());
                            assert(self.held_back() == before.held_back().push(clip));
                        },
                    }
                },
            }
            proof {
                those_look_ahead_no_further(all, alones, rooms, alone, room, done);
                let (a, b) = (alones, rooms);
                alones = alones.push(alone);
                rooms = rooms.push(room);
                assert(those(all, alones, rooms, Placed::Back, done) == those(
                    all,
                    a,
                    b,
                    Placed::Back,
                    done,
                ));
                assert(those(all, alones, rooms, Placed::Lender, done) == those(
                    all,
                    a,
                    b,
                    Placed::Lender,
                    done,
                ));
                assert(those(all, alones, rooms, Placed::Held, done) == those(
                    all,
                    a,
                    b,
                    Placed::Held,
                    done,
                ));
                assert(all[done]@.borrowed == clip@.borrowed);
                assert(self.accounts().add(candidates@.to_multiset()) =~= total);
                let sent = those(all, alones, rooms, Placed::Back, done + 1);
                assert(self.sent_back() =~= old(self).sent_back() + sent);
                let lent = those(all, alones, rooms, Placed::Lender, done + 1);
                assert(self.lent() =~= old(self).lent() + lent);
                assert(self.asked() =~= old(self).asked() + alones);
            }
        }
        proof {
            candidates@.to_multiset_ensures();
            assert(candidates@ =~= Seq::empty());
            empty_adds_nothing(self.accounts(), candidates@);
            assert(old(self).sorted_out(self, alones, rooms));
        }
        returned
    }

    /// Takes in everything the engine has given up.
    fn collect(&mut self)
        requires
            old(self).wf(),
        ensures
            final(self).wf(),
            final(self).sent_back() == old(self).sent_back(),
            final(self).lent() == old(self).lent(),
            final(self).full() == old(self).full(),
            final(self).asked() == old(self).asked(),
            final(self).limits() == old(self).limits(),
            final(self).held_back() == old(self).held_back() + final(self).arrived().skip(
                old(self).arrived().len() as int,
            ),
            final(self).accounts() == old(self).accounts().add(
                final(self).arrived().skip(old(self).arrived().len() as int).to_multiset(),
            ),
            old(self).took_in(final(self)),
    {
        proof {
            let none = self.arrived().skip(self.arrived().len() as int);
            assert(none =~= Seq::empty());
            empty_adds_nothing(self.accounts(), none);
            assert(self.held_back() =~= self.held_back() + none);
        }
        // The ring holds a bounded number, so a pass takes at most that many.
        let mut left: usize = SLOTS;
        while left > 0
            invariant
                self.wf(),
                old(self).arrived().is_prefix_of(self.arrived()),
                self.sent_back() == old(self).sent_back(),
                self.lent() == old(self).lent(),
                self.full() == old(self).full(),
                self.asked() == old(self).asked(),
                self.limits() == old(self).limits(),
                self.held_back() == old(self).held_back() + self.arrived().skip(
                    old(self).arrived().len() as int,
                ),
                self.accounts() == old(self).accounts().add(
                    self.arrived().skip(old(self).arrived().len() as int).to_multiset(),
                ),
                self.arrived().len() - old(self).arrived().len() + left == SLOTS,
                self.empty() == old(self).empty(),
            decreases left,
        {
            let ghost before = *self;
            match self.retired.take() {
                Some(parcel) => {
                    let ghost clip = parcel.inside();
                    self.waiting.push(parcel.open());
                    proof {
                        assert(self.arrived() =~= before.arrived().push(clip));
                        assert(self.held_back() == before.held_back().push(clip));
                        let n = old(self).arrived().len() as int;
                        assert(self.arrived().skip(n) =~= before.arrived().skip(n).push(clip));
                        assert(self.held_back() =~= old(self).held_back() + self.arrived().skip(n));
                        before.arrived().skip(n).to_multiset_ensures();
                        before.held_back().to_multiset_ensures();
                        assert(self.sent_back() == before.sent_back());
                        assert(self.lent() == before.lent());
                        assert(self.held_back().to_multiset()
                            == before.held_back().to_multiset().insert(clip));
                        assert(self.arrived().skip(n).to_multiset()
                            == before.arrived().skip(n).to_multiset().insert(clip));
                        assert(self.accounts() =~= before.accounts().insert(clip));
                        assert(self.accounts() =~= old(self).accounts().add(
                            self.arrived().skip(n).to_multiset(),
                        ));
                    }
                },
                None => {
                    return ;
                },
            }
            left -= 1;
        }
    }

    /// Clips retired but still being read elsewhere.
    pub fn waiting(&self) -> (r: usize)
        ensures
            r == self.held_back().len(),
    {
        self.waiting.len()
    }

    /// Whether what was kept for whoever lent it was handed back, and nothing else happened.
    pub open spec fn gave_back(&self, after: &Self) -> bool {
        &&& after.lent() == Seq::<Arc<Clip<S>>>::empty()
        &&& after.held_back() == self.held_back()
        &&& after.sent_back() == self.sent_back()
        &&& after.arrived() == self.arrived()
        &&& after.asked() == self.asked()
        &&& after.empty() == self.empty()
        &&& after.full() == self.full()
        &&& after.limits() == self.limits()
    }

    /// Takes back storage the caller lent the engine, ready to be filled again.
    pub fn take_borrowed(&mut self) -> (r: Vec<Arc<Clip<S>>>)
        requires
            old(self).wf(),
        ensures
            final(self).wf(),
            r@ == old(self).lent(),
            old(self).gave_back(final(self)),
    {
        let mut out: Vec<Arc<Clip<S>>> = Vec::with_capacity(SLOTS);
        core::mem::swap(&mut out, &mut self.borrowed);
        assert(self.lent() =~= Seq::empty());
        out
    }
}

/// Adding nothing changes nothing.
proof fn empty_adds_nothing<T>(all: Multiset<T>, none: Seq<T>)
    requires
        none.len() == 0,
    ensures
        all.add(none.to_multiset()) == all,
{
    none.to_multiset_ensures();
    assert(none =~= Seq::empty());
    assert(all.add(none.to_multiset()) =~= all);
}

/// Builds both ends of the loop.
pub fn channel<S>() -> (r: (Retirement<S>, Recycler<S>))
    ensures
        r.0.wf(),
        r.0@.len() == 0,
        r.0.back().len() == 0,
        r.0.kept().len() == 0,
        r.0.handed().len() == 0,
        r.0.full() == 0,
        r.0.empty() == 0,
        r.0.limits() == (SLOTS as int, SLOTS as int),
        r.1.wf(),
        r.1.idle(),
        r.1.limits() == (SLOTS as int, SLOTS as int),
{
    let (retired_tx, retired_rx) = lane(SLOTS);
    let (returned_tx, returned_rx) = lane(SLOTS);
    let retirement = Retirement {
        retired: retired_tx,
        returned: returned_rx,
        pending: Vec::with_capacity(SLOTS),
        given: Ghost(Seq::empty()),
    };
    proof {
        assert(retirement.handed() =~= Seq::empty());
        assert(retirement.kept() =~= Seq::empty());
        Seq::<Arc<Clip<S>>>::empty().to_multiset_ensures();
        assert(retirement@.to_multiset() =~= retirement.handed().to_multiset().add(
            retirement.kept().to_multiset(),
        ));
    }
    (
        retirement,
        Recycler {
            retired: retired_rx,
            returned: returned_tx,
            waiting: Vec::with_capacity(SLOTS),
            borrowed: Vec::with_capacity(SLOTS),
            readers: Readers::new(),
        },
    )
}

} // verus!
