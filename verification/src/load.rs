//! Putting a saved session back into the engine.
//!
//! Loaded audio arrives as storage the loader owns, marked borrowed so the engine returns
//! it rather than absorbing it. One ordered channel carries every step, so clearing the
//! grid, filling it and freezing the transport keep their order.

use vstd::prelude::*;

use crate::grid::{bar_length, BarGrid};
use crate::ids::SlotAddr;
use crate::lane::{lane, Inbox, Outbox};
use crate::queue::drain;
use crate::recycle::Parcel;
use crate::time::{Frames, SampleRate, Tempo, TimeError, TimeSignature};

verus! {

/// Messages in flight before the engine drains any. One per pad plus the two markers.
pub const SLOTS: usize = 80;

/// A grid the engine can measure, at the engine's own sample rate.
///
/// Only [`Loader::grid`] builds one, so neither invariant can be sidestepped by a caller.
#[derive(Debug, Clone, Copy, PartialEq, Eq, Structural)]
pub struct LoadGrid(BarGrid);

impl LoadGrid {
    /// The grid itself.
    pub closed spec fn inside(self) -> BarGrid {
        self.0
    }

    /// The grid itself.
    pub fn get(self) -> (r: BarGrid)
        ensures
            r == self.inside(),
    {
        self.0
    }
}

/// One step of a load.
#[derive(Debug)]
pub enum LoadMessage<S> {
    /// Empty the grid and take the session's musical time.
    Begin {
        /// The session's grid.
        grid: LoadGrid,
    },
    /// Put a clip on a pad.
    Clip {
        /// Which pad.
        addr: SlotAddr,
        /// The audio.
        clip: Parcel<S>,
        /// Whether the pad was sounding when the session was saved.
        playing: bool,
        /// Where the launch that was playing it put it, if there was one.
        launch_anchor: Option<Frames>,
    },
    /// Nothing more is coming. Freezes the transport.
    End,
}

/// A load that could not be handed over, because the engine has not drained the load queue.
#[derive(Debug)]
pub struct LoadFull<S>(pub LoadMessage<S>);

/// A load that could not be begun.
#[derive(Debug, Clone, Copy, PartialEq, Eq, Structural)]
pub enum BeginError {
    /// The engine could not measure a bar of the session's musical time.
    Time(TimeError),
    /// The engine has not drained the load queue.
    Full,
}

/// A clip that could not be handed over, because the engine has not drained the load queue.
#[derive(Debug)]
pub struct ClipFull<S>(pub Parcel<S>);

/// One pad of a saved session, ready to be queued.
#[derive(Debug)]
pub struct SavedClip<S> {
    /// Which pad.
    pub addr: SlotAddr,
    /// The audio.
    pub clip: Parcel<S>,
    /// Whether the pad was sounding when the session was saved.
    pub playing: bool,
    /// Where the launch that was playing it put it, if there was one.
    pub launch_anchor: Option<Frames>,
}

/// The steps that put the pads of a session in place, in order.
pub open spec fn clip_steps<S>(clips: Seq<SavedClip<S>>) -> Seq<LoadMessage<S>> {
    clips.map_values(
        |saved: SavedClip<S>|
            LoadMessage::Clip {
                addr: saved.addr,
                clip: saved.clip,
                playing: saved.playing,
                launch_anchor: saved.launch_anchor,
            },
    )
}

/// The steps of a whole load.
pub open spec fn load_steps<S>(grid: LoadGrid, clips: Seq<SavedClip<S>>) -> Seq<LoadMessage<S>> {
    seq![LoadMessage::Begin { grid }] + clip_steps(clips) + seq![LoadMessage::End]
}

/// Why a session could not be queued.
#[derive(Debug, Clone, Copy, PartialEq, Eq, Structural)]
pub enum QueueError {
    /// The engine has not drained the load queue.
    Busy,
    /// The engine could not measure a bar of the session's musical time.
    Time(TimeError),
    /// The load queue filled up part way.
    Full,
}

/// The loader's side.
#[verifier::reject_recursive_types(S)]
pub struct Loader<S> {
    out: Outbox<LoadMessage<S>>,
    /// The rate the engine runs at, which every grid it is sent has to share.
    sample_rate: SampleRate,
}

impl<S> Loader<S> {
    /// Every step queued so far, in order.
    pub closed spec fn view(&self) -> Seq<LoadMessage<S>> {
        self.out@
    }

    /// How often there was no room.
    pub closed spec fn full(&self) -> int {
        self.out.full()
    }

    /// How many messages the queue holds.
    pub closed spec fn limit(&self) -> int {
        self.out.limit()
    }

    /// The rate of the engine this loader feeds.
    pub closed spec fn rate(&self) -> SampleRate {
        self.sample_rate
    }

    /// Builds a grid for the engine this loader feeds.
    ///
    /// # Errors
    ///
    /// [`TimeError`] if the engine could not measure a bar of this musical time.
    pub fn grid(&self, tempo: Tempo, time_signature: TimeSignature) -> (r: Result<
        LoadGrid,
        TimeError,
    >)
        ensures
            r is Ok <==> 1 <= bar_length(
                self.rate().rate(),
                tempo.units(),
                time_signature.beats(),
                time_signature.unit(),
            ) <= u32::MAX,
            r is Ok ==> r->Ok_0.inside().rate_at() == self.rate() && r->Ok_0.inside().tempo_at()
                == tempo && r->Ok_0.inside().signature_at() == time_signature
                && r->Ok_0.inside().wf(),
            r is Err ==> r->Err_0 == TimeError::BarLengthUnrepresentable,
    {
        match BarGrid::new(self.sample_rate, tempo, time_signature) {
            Ok(grid) => Ok(LoadGrid(grid)),
            Err(error) => Err(error),
        }
    }

    /// Queues one step.
    ///
    /// # Errors
    ///
    /// [`LoadFull`] with the message back if the engine has not drained the queue.
    pub fn send(&mut self, message: LoadMessage<S>) -> (r: Result<(), LoadFull<S>>)
        ensures
            final(self).rate() == old(self).rate(),
            final(self).limit() == old(self).limit(),
            r is Ok ==> final(self)@ == old(self)@.push(message) && final(self).full() == old(
                self,
            ).full(),
            r is Err ==> r->Err_0.0 == message && final(self)@ == old(self)@,
            r is Err ==> final(self).full() == old(self).full() + 1 && old(self)@.len() >= old(
                self,
            ).limit(),
    {
        match self.out.send(message) {
            Ok(()) => Ok(()),
            Err(message) => Err(LoadFull(message)),
        }
    }

    /// Opens a load in the given musical time.
    ///
    /// # Errors
    ///
    /// [`BeginError::Time`] if the engine could not measure it, in which case nothing is
    /// queued, or [`BeginError::Full`] if the engine has not drained the queue.
    pub fn begin(&mut self, tempo: Tempo, time_signature: TimeSignature) -> (r: Result<
        (),
        BeginError,
    >)
        ensures
            final(self).rate() == old(self).rate(),
            final(self).limit() == old(self).limit(),
            r == Err::<(), BeginError>(BeginError::Time(TimeError::BarLengthUnrepresentable))
                <==> !(1 <= bar_length(
                old(self).rate().rate(),
                tempo.units(),
                time_signature.beats(),
                time_signature.unit(),
            ) <= u32::MAX),
            r is Err ==> final(self)@ == old(self)@,
            r is Ok ==> final(self)@.len() == old(self)@.len() + 1 && final(self)@.drop_last()
                == old(self)@ && (final(self)@.last() matches LoadMessage::Begin { grid }
                && grid.inside().rate_at() == old(self).rate() && grid.inside().tempo_at() == tempo
                && grid.inside().signature_at() == time_signature),
            r is Err && r->Err_0 is Full ==> final(self).full() == old(self).full() + 1 && old(
                self,
            )@.len() >= old(self).limit(),
            !(r is Err && r->Err_0 is Full) ==> final(self).full() == old(self).full(),
            r is Err && !(r->Err_0 is Full) ==> r->Err_0 == BeginError::Time(
                TimeError::BarLengthUnrepresentable,
            ),
    {
        let grid: LoadGrid = match self.grid(tempo, time_signature) {
            Ok(grid) => grid,
            Err(error) => {
                return Err(BeginError::Time(error));
            },
        };
        match self.send(LoadMessage::Begin { grid }) {
            Ok(()) => {
                assert(self@.drop_last() =~= old(self)@);
                Ok(())
            },
            Err(_) => Err(BeginError::Full),
        }
    }

    /// Puts a clip on a pad.
    ///
    /// # Errors
    ///
    /// [`ClipFull`] with the clip back if the engine has not drained the queue.
    pub fn clip(
        &mut self,
        addr: SlotAddr,
        clip: Parcel<S>,
        playing: bool,
        launch_anchor: Option<Frames>,
    ) -> (r: Result<(), ClipFull<S>>)
        ensures
            final(self).rate() == old(self).rate(),
            final(self).limit() == old(self).limit(),
            r is Ok ==> final(self)@ == old(self)@.push(
                LoadMessage::Clip { addr, clip, playing, launch_anchor },
            ) && final(self).full() == old(self).full(),
            r is Err ==> r->Err_0.0 == clip && final(self)@ == old(self)@,
            r is Err ==> final(self).full() == old(self).full() + 1 && old(self)@.len() >= old(
                self,
            ).limit(),
    {
        let ghost wrapped = clip;
        match self.send(LoadMessage::Clip { addr, clip, playing, launch_anchor }) {
            Ok(()) => Ok(()),
            Err(LoadFull(LoadMessage::Clip { clip, .. })) => Err(ClipFull(clip)),
            Err(LoadFull(_)) => {
                assert(false);
                Ok(())
            },
        }
    }

    /// Says that nothing more is coming.
    ///
    /// # Errors
    ///
    /// [`LoadFull`] if the engine has not drained the queue.
    pub fn end(&mut self) -> (r: Result<(), LoadFull<S>>)
        ensures
            final(self).rate() == old(self).rate(),
            final(self).limit() == old(self).limit(),
            r is Ok ==> final(self)@ == old(self)@.push(LoadMessage::End) && final(self).full()
                == old(self).full(),
            r is Err ==> r->Err_0.0 == LoadMessage::<S>::End && final(self)@ == old(self)@,
            r is Err ==> final(self).full() == old(self).full() + 1 && old(self)@.len() >= old(
                self,
            ).limit(),
    {
        self.send(LoadMessage::End)
    }

    /// Whether queueing a session went as it should, where there was found to be room for so many
    /// messages. Without room for a whole session nothing is queued, nor where the engine could
    /// not measure its musical time. Otherwise all of it is, in order, unless the queue was found
    /// to be full part way.
    pub open spec fn queues(
        &self,
        room: int,
        tempo: Tempo,
        time_signature: TimeSignature,
        clips: Seq<SavedClip<S>>,
        after: &Self,
        r: Result<(), QueueError>,
    ) -> bool {
        let measured = 1 <= bar_length(
            self.rate().rate(),
            tempo.units(),
            time_signature.beats(),
            time_signature.unit(),
        ) <= u32::MAX;
        &&& after.rate() == self.rate()
        &&& after.limit() == self.limit()
        &&& if !fits(room) {
            r == Err::<(), QueueError>(QueueError::Busy) && after@ == self@ && after.full()
                == self.full()
        } else if !measured {
            r == Err::<(), QueueError>(QueueError::Time(TimeError::BarLengthUnrepresentable))
                && after@ == self@ && after.full() == self.full()
        } else {
            exists|grid: LoadGrid, count: int|
                #![trigger load_steps(grid, clips).take(count)]
                grid.inside().rate_at() == self.rate() && grid.inside().tempo_at() == tempo
                    && grid.inside().signature_at() == time_signature && after@ == self@
                    + load_steps(grid, clips).take(count) && if after.full() == self.full() {
                    count == clips.len() + 2 && r == Ok::<(), QueueError>(())
                } else {
                    after.full() == self.full() + 1 && after@.len() >= self.limit() && 0 <= count
                        < clips.len() + 2 && r == Err::<(), QueueError>(QueueError::Full)
                }
        }
    }

    /// Queues a whole session, where there is room for one. What was queued of a session that
    /// did not fit after all is left to the next one, which begins over.
    ///
    /// # Errors
    ///
    /// [`QueueError::Busy`] if there was no room for a whole session, or [`QueueError::Time`] if
    /// the engine could not measure it: nothing is queued then. [`QueueError::Full`] if the queue
    /// filled up part way.
    pub fn queue(
        &mut self,
        tempo: Tempo,
        time_signature: TimeSignature,
        clips: Vec<SavedClip<S>>,
    ) -> (r: Result<(), QueueError>)
        ensures
            exists|room: usize|
                room <= old(self).limit() && room + old(self)@.len() >= old(self).limit() && #[trigger]
                old(self).queues(room as int, tempo, time_signature, clips@, final(self), r),
    {
        let room: usize = self.out.room();
        let done: Result<(), QueueError> = self.queue_into(room, tempo, time_signature, clips);
        assert(old(self).queues(room as int, tempo, time_signature, clips@, self, done));
        done
    }

    /// Queues a whole session, where there is room for so many messages.
    ///
    /// # Errors
    ///
    /// As for [`Self::queue`].
    pub fn queue_into(
        &mut self,
        room: usize,
        tempo: Tempo,
        time_signature: TimeSignature,
        clips: Vec<SavedClip<S>>,
    ) -> (r: Result<(), QueueError>)
        ensures
            old(self).queues(room as int, tempo, time_signature, clips@, final(self), r),
    {
        if !has_room(room) {
            return Err(QueueError::Busy);
        }
        let grid: LoadGrid = match self.grid(tempo, time_signature) {
            Ok(grid) => grid,
            Err(error) => {
                return Err(QueueError::Time(error));
            },
        };
        let ghost all = clips@;
        let ghost steps = load_steps(grid, all);
        assert(self@ =~= old(self)@ + steps.take(0));
        if self.send(LoadMessage::Begin { grid }).is_err() {
            assert(self@ == old(self)@ + load_steps(grid, all).take(0));
            return Err(QueueError::Full);
        }
        assert(self@ =~= old(self)@ + steps.take(1));
        let mut rest: Vec<SavedClip<S>> = clips;
        let ghost mut done: int = 0;
        assert(all.skip(0) =~= all);
        while rest.len() > 0
            invariant
                0 <= done <= all.len(),
                all == clips@,
                rest@ == all.skip(done),
                steps == load_steps(grid, all),
                self@ == old(self)@ + steps.take(done + 1),
                self.rate() == old(self).rate(),
                self.limit() == old(self).limit(),
                self.full() == old(self).full(),
                fits(room as int),
                grid.inside().rate_at() == old(self).rate(),
                grid.inside().tempo_at() == tempo,
                grid.inside().signature_at() == time_signature,
                1 <= bar_length(
                    old(self).rate().rate(),
                    tempo.units(),
                    time_signature.beats(),
                    time_signature.unit(),
                ) <= u32::MAX,
            decreases rest@.len(),
        {
            let saved: SavedClip<S> = rest.remove(0);
            proof {
                assert(saved == all[done]);
                assert(rest@ =~= all.skip(done + 1));
                assert(steps[done + 1] == clip_steps(all)[done]);
            }
            let SavedClip { addr, clip, playing, launch_anchor } = saved;
            if self.clip(addr, clip, playing, launch_anchor).is_err() {
                assert(self@ == old(self)@ + load_steps(grid, all).take(done + 1));
                return Err(QueueError::Full);
            }
            assert(self@ =~= old(self)@ + steps.take(done + 2));
            proof {
                done = done + 1;
            }
        }
        assert(done == all.len());
        assert(steps[done + 1] == LoadMessage::<S>::End);
        if self.end().is_err() {
            assert(self@ == old(self)@ + load_steps(grid, all).take(done + 1));
            return Err(QueueError::Full);
        }
        assert(steps.take(all.len() as int + 2) =~= steps);
        assert(self@ =~= old(self)@ + load_steps(grid, all).take(all.len() as int + 2));
        Ok(())
    }

    /// Whether the queue had room for a whole session just now. How much room there was rests
    /// with the engine, but it is never more than the queue holds, and never less than that by
    /// more than what was sent.
    pub fn ready(&self) -> (r: bool)
        ensures
            exists|room: usize|
                room <= self.limit() && room + self@.len() >= self.limit() && r == #[trigger] fits(
                    room as int,
                ),
    {
        let room: usize = self.out.room();
        assert(fits(room as int) == (room >= SLOTS));
        has_room(room)
    }
}

/// Whether a whole session fits where there is room for so many messages.
pub open spec fn fits(room: int) -> bool {
    room >= SLOTS
}

/// Whether a whole session fits where there is room for so many messages.
pub fn has_room(room: usize) -> (r: bool)
    ensures
        r == fits(room as int),
{
    room >= SLOTS
}

/// The engine's side.
#[verifier::reject_recursive_types(S)]
pub struct LoadInbox<S> {
    inbox: Inbox<LoadMessage<S>>,
}

impl<S> LoadInbox<S> {
    /// Every step taken so far, in order.
    pub closed spec fn view(&self) -> Seq<LoadMessage<S>> {
        self.inbox@
    }

    /// How often the queue was found empty.
    pub closed spec fn empty(&self) -> int {
        self.inbox.empty()
    }

    /// How many messages the queue holds.
    pub closed spec fn limit(&self) -> int {
        self.inbox.limit()
    }

    /// Takes everything queued, in order: until the queue is empty, or as much of it as it
    /// holds.
    pub fn drain(&mut self) -> (r: Vec<LoadMessage<S>>)
        ensures
            final(self)@ == old(self)@ + r@,
            r@.len() <= SLOTS,
            final(self).empty() == (if r@.len() < SLOTS {
                old(self).empty() + 1
            } else {
                old(self).empty()
            }),
            final(self).limit() == old(self).limit(),
    {
        drain(&mut self.inbox, SLOTS)
    }

    /// Takes the next message, if there is one.
    ///
    /// For a reader that has to stop part way, such as one applying a load before it starts
    /// receiving the next.
    pub fn pop(&mut self) -> (r: Option<LoadMessage<S>>)
        ensures
            r is Some ==> final(self)@ == old(self)@.push(r->Some_0) && final(self).empty() == old(
                self,
            ).empty(),
            r is None ==> final(self)@ == old(self)@ && final(self).empty() == old(self).empty()
                + 1,
            final(self).limit() == old(self).limit(),
    {
        self.inbox.take()
    }
}

/// Builds both sides.
pub fn channel<S>(sample_rate: SampleRate) -> (r: (Loader<S>, LoadInbox<S>))
    ensures
        r.0@.len() == 0,
        r.0.rate() == sample_rate,
        r.0.full() == 0,
        r.0.limit() == SLOTS,
        r.1@.len() == 0,
        r.1.empty() == 0,
        r.1.limit() == SLOTS,
{
    let (out, inbox) = lane(SLOTS);
    (Loader { out, sample_rate }, LoadInbox { inbox })
}

} // verus!
