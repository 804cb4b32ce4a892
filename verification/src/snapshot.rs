//! Handing clips out for something off the audio thread to read.
//!
//! A snapshot request publishes a reference to each occupied pad: an atomic increment per
//! clip, no audio copied. Holding one keeps its clip alive until [`crate::recycle`] takes
//! it back.

use std::sync::Arc;

use vstd::prelude::*;

use crate::clip::Clip;
use crate::ids::SlotAddr;
use crate::lane::{lane, Inbox, Outbox};
use crate::queue::drain;
use crate::slot::SlotState;
use crate::time::Frames;

verus! {

/// Snapshots that can be queued before the reader drains any. One per pad, plus room for
/// a second request arriving before the first is read.
pub const SLOTS: usize = 128;

/// One pad's contents at the moment of a request.
#[derive(Debug)]
pub struct Snapshot<S> {
    /// Which request this answers.
    pub request: u32,
    /// Which pad.
    pub addr: SlotAddr,
    /// What the pad was doing.
    pub state: SlotState,
    /// Where the launch that is playing it put it, if the track restarts its clips.
    pub launch_anchor: Option<Frames>,
    /// The audio it held.
    pub clip: Arc<Clip<S>>,
}

/// The engine's side.
#[verifier::reject_recursive_types(S)]
pub struct SnapshotWriter<S> {
    out: Outbox<Snapshot<S>>,
    dropped: u64,
}

impl<S> SnapshotWriter<S> {
    /// Everything published so far, in order.
    pub closed spec fn view(&self) -> Seq<Snapshot<S>> {
        self.out@
    }

    /// How often there was no room.
    pub closed spec fn full(&self) -> int {
        self.out.full()
    }

    /// How many snapshots the queue holds.
    pub closed spec fn limit(&self) -> int {
        self.out.limit()
    }

    /// How many did not fit so far.
    pub closed spec fn lost(&self) -> int {
        self.dropped as int
    }

    /// Publishes one pad. Counts the snapshot as dropped if the reader is behind.
    ///
    /// Returns whether it was published, which rests with the reader.
    pub fn publish(&mut self, snapshot: Snapshot<S>) -> (r: bool)
        ensures
            r ==> final(self)@ == old(self)@.push(snapshot) && final(self).lost() == old(
                self,
            ).lost(),
            !r ==> final(self)@ == old(self)@ && final(self).lost() == (if old(self).lost()
                < u64::MAX {
                old(self).lost() + 1
            } else {
                u64::MAX as int
            }),
            r ==> final(self).full() == old(self).full(),
            !r ==> final(self).full() == old(self).full() + 1,
            !r ==> old(self)@.len() >= old(self).limit(),
            final(self).limit() == old(self).limit(),
    {
        match self.out.send(snapshot) {
            Ok(()) => true,
            Err(_) => {
                self.dropped = self.dropped.saturating_add(1);
                false
            },
        }
    }

    /// Snapshots that did not fit since the engine started.
    pub fn dropped(&self) -> (r: u64)
        ensures
            r == self.lost(),
    {
        self.dropped
    }
}

/// The reader's side. Use it anywhere except the audio thread.
#[verifier::reject_recursive_types(S)]
pub struct SnapshotReader<S> {
    inbox: Inbox<Snapshot<S>>,
}

impl<S> SnapshotReader<S> {
    /// Everything taken so far, in order.
    pub closed spec fn view(&self) -> Seq<Snapshot<S>> {
        self.inbox@
    }

    /// How often the queue was found empty.
    pub closed spec fn empty(&self) -> int {
        self.inbox.empty()
    }

    /// How many snapshots the queue holds.
    pub closed spec fn limit(&self) -> int {
        self.inbox.limit()
    }

    /// Takes everything published since the last call, in order: until the queue is empty, or
    /// as much of it as it holds.
    pub fn drain(&mut self) -> (r: Vec<Snapshot<S>>)
        ensures
            final(self)@ == old(self)@ + r@,
            r@.len() <= SLOTS,
            final(self).empty() == (if r@.len() < SLOTS {
                old(self).empty() + 1
            } else {
                old(self).empty()
            }),
            final(self).limit() == old(self).limit(),
    {
        drain(&mut self.inbox, SLOTS)
    }
}

/// Builds both sides.
pub fn channel<S>() -> (r: (SnapshotWriter<S>, SnapshotReader<S>))
    ensures
        r.0@.len() == 0,
        r.0.lost() == 0,
        r.0.full() == 0,
        r.0.limit() == SLOTS,
        r.1@.len() == 0,
        r.1.empty() == 0,
        r.1.limit() == SLOTS,
{
    let (out, inbox) = lane(SLOTS);
    (SnapshotWriter { out, dropped: 0 }, SnapshotReader { inbox })
}

} // verus!
