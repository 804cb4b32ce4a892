//! One-way lanes between the audio thread and everything else.
//!
//! A lane is a bounded queue with one end for sending and one for taking, each used by one
//! thread. Neither end ever waits for the other. What the other thread has done meanwhile
//! cannot be known, so each end has a log of what passed through it, and there is known to be room
//! only for as many values as a lane holds from the start.

use rtrb::{Consumer, Producer, RingBuffer};
use vstd::prelude::*;

verus! {

/// The sending end of a queue of `rtrb`.
#[verifier::external_type_specification]
#[verifier::external_body]
#[verifier::reject_recursive_types(T)]
pub struct ExProducer<T>(rtrb::Producer<T>);

/// The taking end of a queue of `rtrb`.
#[verifier::external_type_specification]
#[verifier::external_body]
#[verifier::reject_recursive_types(T)]
pub struct ExConsumer<T>(rtrb::Consumer<T>);

/// The sending end of a lane.
#[verifier::reject_recursive_types(T)]
pub struct Outbox<T> {
    producer: Producer<T>,
    sent: Ghost<Seq<T>>,
    refused: Ghost<int>,
    holds: Ghost<int>,
}

/// The taking end of a lane.
#[verifier::reject_recursive_types(T)]
pub struct Inbox<T> {
    consumer: Consumer<T>,
    taken: Ghost<Seq<T>>,
    found_empty: Ghost<int>,
    holds: Ghost<int>,
}

/// Calls `rtrb::RingBuffer::new`, which makes a queue for exactly so many values and returns its
/// two ends, which have passed nothing on yet. It panics where so many values would not fit in
/// the address space, which the bound rules out for every value that is sent here.
#[verifier::external_body]
fn ring<T>(capacity: usize) -> (r: (Outbox<T>, Inbox<T>))
    requires
        capacity <= 0x1000_0000,
    ensures
        r.0@ == Seq::<T>::empty(),
        r.0.full() == 0,
        r.0.limit() == capacity,
        r.1@ == Seq::<T>::empty(),
        r.1.empty() == 0,
        r.1.limit() == capacity,
{
    let (producer, consumer) = RingBuffer::new(capacity);
    let holds = Ghost(capacity as int);
    (
        Outbox { producer, sent: Ghost(Seq::empty()), refused: Ghost(0), holds },
        Inbox { consumer, taken: Ghost(Seq::empty()), found_empty: Ghost(0), holds },
    )
}

/// Builds both ends of a lane that holds so many values.
pub fn lane<T>(capacity: usize) -> (r: (Outbox<T>, Inbox<T>))
    requires
        capacity <= 0x1000_0000,
    ensures
        r.0@ == Seq::<T>::empty(),
        r.0.full() == 0,
        r.0.limit() == capacity,
        r.1@ == Seq::<T>::empty(),
        r.1.empty() == 0,
        r.1.limit() == capacity,
{
    ring(capacity)
}

impl<T> View for Outbox<T> {
    type V = Seq<T>;

    /// Everything sent so far, in order.
    closed spec fn view(&self) -> Seq<T> {
        self.sent@
    }
}

impl<T> View for Inbox<T> {
    type V = Seq<T>;

    /// Everything taken so far, in order.
    closed spec fn view(&self) -> Seq<T> {
        self.taken@
    }
}

impl<T> Outbox<T> {
    /// How often the lane was too full for what was sent.
    pub closed spec fn full(&self) -> int {
        self.refused@
    }

    /// How many values the lane holds.
    pub closed spec fn limit(&self) -> int {
        self.holds@
    }

    /// Sends a value, or hands it back where the lane is full.
    ///
    /// Calls `rtrb::Producer::push`, which moves the value into the queue, or hands the same
    /// value back where the queue is full. It is never full before as many values were sent as it
    /// holds; after that it depends on what the other thread has taken so far. The log of what
    /// was sent, and the count of how often there was no room, are of these calls.
    #[verifier::external_body]
    pub(crate) fn send(&mut self, value: T) -> (r: Result<(), T>)
        ensures
            r is Ok ==> final(self)@ == old(self)@.push(value) && final(self).full() == old(
                self,
            ).full(),
            r is Err ==> r->Err_0 == value && final(self)@ == old(self)@ && final(self).full()
                == old(self).full() + 1,
            r is Err ==> old(self)@.len() >= old(self).limit(),
            final(self).limit() == old(self).limit(),
    {
        match self.producer.push(value) {
            Ok(()) => Ok(()),
            Err(rtrb::PushError::Full(value)) => Err(value),
        }
    }

    /// How many values there was room for just now.
    ///
    /// Calls `rtrb::Producer::slots`, which counts the values that can be sent before the other
    /// thread takes any: what the queue holds, less what was sent and not taken yet. What was
    /// taken rests with the other thread, which may make more room at any time.
    #[verifier::external_body]
    pub(crate) fn room(&self) -> (r: usize)
        ensures
            r <= self.limit(),
            r + self@.len() >= self.limit(),
    {
        self.producer.slots()
    }
}

impl<T: Copy> Outbox<T> {
    /// Sends as many of the first `count` values as there is room for, and returns how many.
    ///
    /// Calls `rtrb::Producer::push_partial_slice` on the first `count` values, which copies as
    /// many of them into the queue as there is room for, from the front. Fewer are copied only
    /// where the queue is full then.
    #[verifier::external_body]
    pub(crate) fn send_some(&mut self, values: &[T], count: usize) -> (r: usize)
        requires
            count <= values@.len(),
        ensures
            r <= count,
            final(self)@ == old(self)@ + values@.take(r as int),
            final(self).full() == (if r < count {
                old(self).full() + 1
            } else {
                old(self).full()
            }),
            r < count ==> final(self)@.len() >= old(self).limit(),
            final(self).limit() == old(self).limit(),
    {
        let (pushed, _) = self.producer.push_partial_slice(&values[..count]);
        pushed.len()
    }
}

impl<T> Inbox<T> {
    /// How often the lane held too little for what was asked of it.
    pub closed spec fn empty(&self) -> int {
        self.found_empty@
    }

    /// How many values the lane holds.
    pub closed spec fn limit(&self) -> int {
        self.holds@
    }

    /// Takes the next value, if there is one.
    ///
    /// Calls `rtrb::Consumer::pop`, which moves the oldest value out of the queue. What it is,
    /// and whether there is one, depends on what the other thread has sent. The log of what was
    /// taken, and the count of how often there was too little, are of these calls.
    #[verifier::external_body]
    pub(crate) fn take(&mut self) -> (r: Option<T>)
        ensures
            r is Some ==> final(self)@ == old(self)@.push(r->Some_0) && final(self).empty() == old(
                self,
            ).empty(),
            r is None ==> final(self)@ == old(self)@ && final(self).empty() == old(self).empty()
                + 1,
            final(self).limit() == old(self).limit(),
    {
        match self.consumer.pop() {
            Ok(value) => Some(value),
            Err(rtrb::PopError::Empty) => None,
        }
    }

    /// How many values were waiting just now.
    ///
    /// Calls `rtrb::Consumer::slots`, which counts the values waiting to be taken, never more than
    /// the queue holds. The other thread may send more at any time, so no more is claimed of the
    /// answer.
    #[verifier::external_body]
    pub(crate) fn waiting(&self) -> (r: usize)
        ensures
            r <= self.limit(),
    {
        self.consumer.slots()
    }
}

impl<T: Copy> Inbox<T> {
    /// Fills the first `count` places with the next values, or leaves them all alone where
    /// fewer are waiting.
    ///
    /// Calls `rtrb::Consumer::pop_entire_slice` on the first `count` places, which fills them
    /// all with the oldest values, or copies none where fewer are waiting. What the values are
    /// depends on what the other thread has sent, and more than the queue holds never wait.
    #[verifier::external_body]
    pub(crate) fn take_exactly(&mut self, places: &mut [T], count: usize) -> (r: bool)
        requires
            count <= old(places)@.len(),
        ensures
            final(places)@.len() == old(places)@.len(),
            !r ==> final(places)@ == old(places)@ && final(self)@ == old(self)@,
            !r ==> final(self).empty() == old(self).empty() + 1,
            r ==> final(self).empty() == old(self).empty(),
            r ==> final(self)@ == old(self)@ + final(places)@.take(count as int)
                && final(places)@.skip(count as int) == old(places)@.skip(count as int),
            r ==> count <= old(self).limit(),
            final(self).limit() == old(self).limit(),
    {
        self.consumer.pop_entire_slice(&mut places[..count]).is_ok()
    }
}

} // verus!
