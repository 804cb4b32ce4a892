//! The whole grid, and the rules that span more than one slot.
//!
//! Pure like [`crate::slot`]: the work each transition calls for is appended to a list the
//! caller supplies, in the order it is to be carried out.

use vstd::prelude::*;

use crate::grid::lines_climb;
use crate::ids::{places_are_addresses, SlotAddr, TrackId, PAD_COUNT, SLOT_COUNT};
use crate::slot::{
    advanced, can_press, cleared, due, pressed, step, stepped, stopped, yielded, Ctx, Effect, SlotInput,
    SlotState,
};
use crate::time::Frames;

verus! {

/// The state of all 64 pads.
#[derive(Debug, Clone, Copy, PartialEq, Eq)]
pub struct SessionModel {
    slots: [SlotState; 64],
}

/// Work to carry out, each piece with the pad it is for.
pub type Work = Seq<(SlotAddr, Effect)>;

/// Effects with the pad they are for.
pub open spec fn tagged(addr: SlotAddr, effects: Seq<Effect>) -> Work {
    effects.map_values(|effect: Effect| (addr, effect))
}

/// The work of giving the pads from one place up to another an input each, in order.
pub open spec fn swept(
    states: Seq<SlotState>,
    inputs: spec_fn(SlotState) -> Option<SlotInput>,
    ctx: Ctx,
    from: int,
    to: int,
) -> Work
    decreases to - from,
{
    if to <= from {
        seq![]
    } else {
        let before = swept(states, inputs, ctx, from, to - 1);
        match inputs(states[to - 1]) {
            Some(input) => before + tagged(
                SlotAddr::at(to - 1),
                stepped(states[to - 1], input, ctx).1,
            ),
            None => before,
        }
    }
}

/// The states after giving the pads from one place up to another an input each.
pub open spec fn moved(
    states: Seq<SlotState>,
    inputs: spec_fn(SlotState) -> Option<SlotInput>,
    ctx: Ctx,
    from: int,
    to: int,
) -> Seq<SlotState> {
    Seq::new(
        states.len(),
        |place: int|
            match inputs(states[place]) {
                Some(input) if from <= place < to => stepped(states[place], input, ctx).0,
                _ => states[place],
            },
    )
}

/// Gives every pad the same input.
pub open spec fn always(input: SlotInput) -> spec_fn(SlotState) -> Option<SlotInput> {
    |state: SlotState| Some(input)
}

/// Stops the pads that are capturing, and leaves the rest be.
pub open spec fn cancelling() -> spec_fn(SlotState) -> Option<SlotInput> {
    |state: SlotState| if state is Recording {
        Some(SlotInput::Stop)
    } else {
        None
    }
}

/// Whether another pad on the same track is recording, or about to.
pub open spec fn busy_elsewhere(states: Seq<SlotState>, addr: SlotAddr) -> bool {
    exists|other: SlotAddr|
        #![trigger states[other.place()]]
        other.wf() && other.track == addr.track && other != addr
            && states[other.place()].recording()
}

/// The boundary a pad that has just been pressed takes over its track on.
pub open spec fn takeover(state: SlotState) -> Option<Frames> {
    match state {
        SlotState::QueuedRecord { at } => Some(at),
        SlotState::QueuedPlay { clip: _, at } => Some(at),
        _ => None,
    }
}

/// What taking back a stop makes of another pad of the track: a launch that was to follow the
/// pad is dropped, because the track has not come free.
pub open spec fn stood_down(state: SlotState) -> SlotState {
    match state {
        SlotState::QueuedPlay { clip, at: _ } => SlotState::Stopped { clip },
        _ => state,
    }
}

/// What a press makes of another pad of the track, given the state the pad was in and the one
/// it moves to. Where the pad is to take the track over, the other hands over on the same
/// boundary. Where it takes back a stop, it keeps the track.
pub open spec fn made_way(state: SlotState, was: SlotState, becomes: SlotState) -> SlotState {
    match takeover(becomes) {
        Some(at) => yielded(state, at),
        None => if was is QueuedStop {
            stood_down(state)
        } else {
            state
        },
    }
}

/// The grid after a press that the track has room for: the pad moves, and the other pads of the
/// track make way for it.
pub open spec fn after_press(states: Seq<SlotState>, addr: SlotAddr, ctx: Ctx) -> Seq<SlotState> {
    let was = states[addr.place()];
    let state = pressed(was, ctx);
    Seq::new(
        states.len(),
        |place: int|
            if place == addr.place() {
                state
            } else if place / 8 == addr.track.num() {
                made_way(states[place], was, state)
            } else {
                states[place]
            },
    )
}

/// The grid after a press: nothing changes while another pad of the track is recording.
pub open spec fn answered(states: Seq<SlotState>, addr: SlotAddr, ctx: Ctx) -> Seq<SlotState> {
    if busy_elsewhere(states, addr) {
        states
    } else {
        after_press(states, addr, ctx)
    }
}

/// The grid with everything that waits on a bar line waiting on the given one.
pub open spec fn retargeted(state: SlotState, to: Frames) -> SlotState {
    match state {
        SlotState::QueuedRecord { at: _ } => SlotState::QueuedRecord { at: to },
        SlotState::Recording { started_at, ends_at: Some(_) } => SlotState::Recording {
            started_at,
            ends_at: Some(to),
        },
        SlotState::QueuedPlay { clip, at: _ } => SlotState::QueuedPlay { clip, at: to },
        SlotState::QueuedStop { clip, at: _ } => SlotState::QueuedStop { clip, at: to },
        _ => state,
    }
}

fn empty_grid() -> (r: [SlotState; 64])
    ensures
        forall|i: int| 0 <= i < 64 ==> r@[i] == SlotState::Empty,
{
    [SlotState::Empty; 64]
}

impl SessionModel {
    /// What every pad is doing, track by track.
    pub closed spec fn view(&self) -> Seq<SlotState> {
        self.slots@
    }

    /// An empty session.
    pub fn new() -> (r: Self)
        ensures
            r@ == Seq::new(64, |i: int| SlotState::Empty),
    {
        let slots: [SlotState; 64] = empty_grid();
        let r = Self { slots };
        assert(r@ =~= Seq::new(64, |i: int| SlotState::Empty));
        r
    }

    /// What a pad is doing.
    pub fn state(&self, addr: SlotAddr) -> (r: SlotState)
        ensures
            r == self@[addr.place()],
            self@.len() == 64,
    {
        self.slots[addr.index()]
    }

    fn set(&mut self, addr: SlotAddr, state: SlotState)
        ensures
            final(self)@ == old(self)@.update(addr.place(), state),
            old(self)@.len() == 64,
    {
        self.slots[addr.index()] = state;
    }

    /// Overwrites a pad's state without running the machine.
    ///
    /// For a mirror kept in step with a report from elsewhere. Using it on the model
    /// that owns the transitions would skip the rules in [`Self::press`].
    pub fn mirror(&mut self, addr: SlotAddr, state: SlotState)
        ensures
            final(self)@ == old(self)@.update(addr.place(), state),
            old(self)@.len() == 64,
    {
        self.set(addr, state);
    }

    /// Whether any pad holds a clip. The tempo is locked once this is true — changing
    /// it would leave existing clips misaligned with the grid.
    pub fn has_any_clip(&self) -> (r: bool)
        ensures
            r == (exists|place: int| 0 <= place < 64 && (#[trigger] self@[place]).held() is Some),
            self@.len() == 64,
    {
        let mut place: usize = 0;
        while place < PAD_COUNT
            invariant
                place <= 64,
                forall|i: int| 0 <= i < place ==> (#[trigger] self@[i]).held() is None,
            decreases 64 - place,
        {
            if self.slots[place].clip().is_some() {
                assert(self@[place as int].held() is Some);
                return true;
            }
            place += 1;
        }
        false
    }

    /// Gives one pad an input.
    fn apply(
        &mut self,
        addr: SlotAddr,
        input: SlotInput,
        ctx: &Ctx,
        sink: &mut Vec<(SlotAddr, Effect)>,
    )
        requires
            input is Press ==> can_press(old(self)@[addr.place()], *ctx),
        ensures
            final(self)@ == old(self)@.update(
                addr.place(),
                stepped(old(self)@[addr.place()], input, *ctx).0,
            ),
            old(self)@.len() == 64,
            final(sink)@ == old(sink)@ + tagged(
                addr,
                stepped(old(self)@[addr.place()], input, *ctx).1,
            ),
    {
        let (state, effects) = step(self.state(addr), input, ctx);
        self.set(addr, state);
        let mut index: usize = 0;
        let len: usize = effects.len();
        while index < len
            invariant
                index <= len,
                len == effects.view().len(),
                sink@ == old(sink)@ + tagged(addr, effects.view().take(index as int)),
            decreases len - index,
        {
            if let Some(effect) = effects.get(index) {
                sink.push((addr, effect));
            }
            index += 1;
            assert(sink@ =~= old(sink)@ + tagged(addr, effects.view().take(index as int)));
        }
        assert(effects.view().take(len as int) =~= effects.view());
    }

    /// Gives the pads from one place up to another the same input, in order.
    fn sweep(
        &mut self,
        from: usize,
        to: usize,
        input: SlotInput,
        ctx: &Ctx,
        sink: &mut Vec<(SlotAddr, Effect)>,
    )
        requires
            from <= to <= 64,
            !(input is Press),
        ensures
            final(self)@ == moved(old(self)@, always(input), *ctx, from as int, to as int),
            old(self)@.len() == 64,
            final(sink)@ == old(sink)@ + swept(
                old(self)@,
                always(input),
                *ctx,
                from as int,
                to as int,
            ),
    {
        let mut place: usize = from;
        proof {
            assert(self.slots@.len() == 64);
            assert(self@ =~= moved(old(self)@, always(input), *ctx, from as int, from as int));
            assert(sink@ =~= old(sink)@ + swept(
                old(self)@,
                always(input),
                *ctx,
                from as int,
                from as int,
            ));
        }
        while place < to
            invariant
                from <= place <= to <= 64,
                !(input is Press),
                old(self)@.len() == 64,
                self@ == moved(old(self)@, always(input), *ctx, from as int, place as int),
                sink@ == old(sink)@ + swept(
                    old(self)@,
                    always(input),
                    *ctx,
                    from as int,
                    place as int,
                ),
            decreases to - place,
        {
            let addr: SlotAddr = SlotAddr::of_index(place);
            self.apply(addr, input, ctx, sink);
            place += 1;
            proof {
                assert(self@ =~= moved(old(self)@, always(input), *ctx, from as int, place as int));
                assert(sink@ =~= old(sink)@ + swept(
                    old(self)@,
                    always(input),
                    *ctx,
                    from as int,
                    place as int,
                ));
            }
        }
    }

    /// Whether another pad on the same track is recording, or about to.
    pub fn is_busy_elsewhere(&self, addr: SlotAddr) -> (r: bool)
        ensures
            r == busy_elsewhere(self@, addr),
    {
        let own: usize = addr.index();
        let first: usize = addr.track.index() * SLOT_COUNT;
        let mut place: usize = first;
        while place < first + SLOT_COUNT
            invariant
                first <= place <= first + 8,
                first + 8 <= 64,
                addr.wf(),
                first == addr.track.num() * 8,
                own == addr.place(),
                forall|i: int|
                    first <= i < place && i != own ==> !(#[trigger] self@[i]).recording(),
            decreases first + 8 - place,
        {
            if place != own && self.slots[place].is_recording() {
                proof {
                    let other = SlotAddr::at(place as int);
                    places_are_addresses(other, place as int);
                    assert(self@[other.place()].recording());
                    assert(other.track == addr.track);
                }
                return true;
            }
            place += 1;
        }
        proof {
            assert forall|other: SlotAddr|
                #![trigger self@[other.place()]]
                other.wf() && other.track == addr.track && other
                    != addr implies !self@[other.place()].recording() by {
                places_are_addresses(other, 0);
                places_are_addresses(addr, 0);
                assert(other.place() != own);
            }
        }
        false
    }

    /// Handles a press, applying the one-slot-per-track rule.
    ///
    /// While a track is recording, presses on its other pads are ignored: arming a
    /// second pad mid-recording would seal, auto-play and stop the first in one
    /// instant, with no useful reading of the gesture.
    ///
    /// A press that takes back a stop keeps the track, so a launch that was to follow the pad
    /// is dropped.
    pub fn press(&mut self, addr: SlotAddr, ctx: &Ctx, sink: &mut Vec<(SlotAddr, Effect)>)
        requires
            !busy_elsewhere(old(self)@, addr) ==> can_press(old(self)@[addr.place()], *ctx),
        ensures
            old(self)@.len() == 64,
            final(self)@ == answered(old(self)@, addr, *ctx),
            final(sink)@ == old(sink)@,
    {
        let own: usize = addr.index();
        let first: usize = addr.track.index() * SLOT_COUNT;
        proof {
            assert(self.slots@.len() == 64);
        }
        if self.is_busy_elsewhere(addr) {
            return ;
        }
        let was: SlotState = self.state(addr);
        self.apply(addr, SlotInput::Press, ctx, sink);
        assert(sink@ =~= old(sink)@);
        let state: SlotState = self.state(addr);
        let mut place: usize = first;
        while place < first + SLOT_COUNT
            invariant
                first <= place <= first + 8,
                first + 8 <= 64,
                addr.wf(),
                first == addr.track.num() * 8,
                own == addr.place(),
                old(self)@.len() == 64,
                was == old(self)@[own as int],
                state == pressed(was, *ctx),
                sink@ == old(sink)@,
                self@ == Seq::new(
                    64,
                    |i: int|
                        if i == own {
                            state
                        } else if first <= i < place {
                            made_way(old(self)@[i], was, state)
                        } else {
                            old(self)@[i]
                        },
                ),
            decreases first + 8 - place,
        {
            if place != own {
                let other: SlotAddr = SlotAddr::of_index(place);
                match state {
                    // Whatever this pad takes over from hands back on the same boundary.
                    SlotState::QueuedRecord { at } => {
                        self.apply(other, SlotInput::Yield { at }, ctx, sink);
                    },
                    SlotState::QueuedPlay { at, .. } => {
                        self.apply(other, SlotInput::Yield { at }, ctx, sink);
                    },
                    _ => {
                        if let SlotState::QueuedStop { .. } = was {
                            if let SlotState::QueuedPlay { clip, .. } = self.state(other) {
                                self.set(other, SlotState::Stopped { clip });
                            }
                        }
                    },
                }
                assert(sink@ =~= old(sink)@);
            }
            place += 1;
            assert(self@ =~= Seq::new(
                64,
                |i: int|
                    if i == own {
                        state
                    } else if first <= i < place {
                        made_way(old(self)@[i], was, state)
                    } else {
                        old(self)@[i]
                    },
            ));
        }
        assert(self@ =~= after_press(old(self)@, addr, *ctx));
    }

    /// Forgets the clip in a pad.
    pub fn clear(&mut self, addr: SlotAddr, ctx: &Ctx, sink: &mut Vec<(SlotAddr, Effect)>)
        ensures
            old(self)@.len() == 64,
            final(self)@.len() == 64,
            final(self)@ == old(self)@.update(addr.place(), SlotState::Empty),
            final(sink)@ == old(sink)@ + tagged(addr, cleared(old(self)@[addr.place()], ctx.now)),
    {
        let place: usize = addr.index();
        self.apply(addr, SlotInput::Clear, ctx, sink);
        assert(self@.len() == 64 && place < 64);
    }

    /// Forgets every clip.
    pub fn clear_all(&mut self, ctx: &Ctx, sink: &mut Vec<(SlotAddr, Effect)>)
        ensures
            old(self)@.len() == 64,
            final(self)@ == Seq::new(64, |i: int| SlotState::Empty),
            final(sink)@ == old(sink)@ + swept(old(self)@, always(SlotInput::Clear), *ctx, 0, 64),
    {
        self.sweep(0, PAD_COUNT, SlotInput::Clear, ctx, sink);
        assert(self@ =~= Seq::new(64, |i: int| SlotState::Empty));
    }

    /// Stops a track immediately.
    pub fn stop_track(&mut self, track: TrackId, ctx: &Ctx, sink: &mut Vec<(SlotAddr, Effect)>)
        ensures
            old(self)@.len() == 64,
            final(self)@ == Seq::new(
                64,
                |i: int|
                    if i / 8 == track.num() {
                        stopped(old(self)@[i])
                    } else {
                        old(self)@[i]
                    },
            ),
            final(sink)@ == old(sink)@ + swept(
                old(self)@,
                always(SlotInput::Stop),
                *ctx,
                track.num() * 8,
                track.num() * 8 + 8,
            ),
    {
        let first: usize = track.index() * SLOT_COUNT;
        self.sweep(first, first + SLOT_COUNT, SlotInput::Stop, ctx, sink);
        assert(self@ =~= Seq::new(
            64,
            |i: int|
                if i / 8 == track.num() {
                    stopped(old(self)@[i])
                } else {
                    old(self)@[i]
                },
        ));
    }

    /// Stops everything immediately. Recordings in progress are discarded.
    pub fn stop_all(&mut self, ctx: &Ctx, sink: &mut Vec<(SlotAddr, Effect)>)
        ensures
            old(self)@.len() == 64,
            final(self)@ == old(self)@.map_values(|state: SlotState| stopped(state)),
            final(sink)@ == old(sink)@ + swept(old(self)@, always(SlotInput::Stop), *ctx, 0, 64),
    {
        self.sweep(0, PAD_COUNT, SlotInput::Stop, ctx, sink);
        assert(self@ =~= old(self)@.map_values(|state: SlotState| stopped(state)));
    }

    /// Fires every transition due at [`Ctx::now`]. Call it at each bar boundary so
    /// effects land on the exact scheduled frame.
    pub fn advance(&mut self, ctx: &Ctx, sink: &mut Vec<(SlotAddr, Effect)>)
        ensures
            old(self)@.len() == 64,
            final(self)@ == old(self)@.map_values(|state: SlotState| advanced(state, *ctx).0),
            final(sink)@ == old(sink)@ + swept(old(self)@, always(SlotInput::Advance), *ctx, 0, 64),
    {
        self.sweep(0, PAD_COUNT, SlotInput::Advance, ctx, sink);
        assert(self@ =~= old(self)@.map_values(|state: SlotState| advanced(state, *ctx).0));
    }

    /// Discards every take in progress. A pad that is only armed stays armed.
    pub fn cancel_recordings(&mut self, ctx: &Ctx, sink: &mut Vec<(SlotAddr, Effect)>)
        ensures
            old(self)@.len() == 64,
            final(self)@ == moved(old(self)@, cancelling(), *ctx, 0, 64),
            final(sink)@ == old(sink)@ + swept(old(self)@, cancelling(), *ctx, 0, 64),
    {
        let mut place: usize = 0;
        proof {
            assert(self.slots@.len() == 64);
            assert(self@ =~= moved(old(self)@, cancelling(), *ctx, 0, 0));
            assert(sink@ =~= old(sink)@ + swept(old(self)@, cancelling(), *ctx, 0, 0));
        }
        while place < PAD_COUNT
            invariant
                place <= 64,
                old(self)@.len() == 64,
                self@ == moved(old(self)@, cancelling(), *ctx, 0, place as int),
                sink@ == old(sink)@ + swept(old(self)@, cancelling(), *ctx, 0, place as int),
            decreases 64 - place,
        {
            let addr: SlotAddr = SlotAddr::of_index(place);
            if matches!(self.state(addr), SlotState::Recording { .. }) {
                self.apply(addr, SlotInput::Stop, ctx, sink);
            }
            place += 1;
            proof {
                assert(self@ =~= moved(old(self)@, cancelling(), *ctx, 0, place as int));
                assert(sink@ =~= old(sink)@ + swept(
                    old(self)@,
                    cancelling(),
                    *ctx,
                    0,
                    place as int,
                ));
            }
        }
    }

    /// Moves everything that waits on a bar line to the given one.
    pub fn retarget_pending(&mut self, to: Frames)
        ensures
            old(self)@.len() == 64,
            final(self)@ == old(self)@.map_values(|state: SlotState| retargeted(state, to)),
    {
        let mut place: usize = 0;
        proof {
            assert(self.slots@.len() == 64);
        }
        while place < PAD_COUNT
            invariant
                place <= 64,
                old(self)@.len() == 64,
                self@ == Seq::new(
                    64,
                    |i: int|
                        if i < place {
                            retargeted(old(self)@[i], to)
                        } else {
                            old(self)@[i]
                        },
                ),
            decreases 64 - place,
        {
            let state: SlotState = self.slots[place];
            self.slots[place] = match state {
                SlotState::QueuedRecord { .. } => SlotState::QueuedRecord { at: to },
                SlotState::Recording { started_at, ends_at: Some(_) } => SlotState::Recording {
                    started_at,
                    ends_at: Some(to),
                },
                SlotState::QueuedPlay { clip, .. } => SlotState::QueuedPlay { clip, at: to },
                SlotState::QueuedStop { clip, .. } => SlotState::QueuedStop { clip, at: to },
                _ => state,
            };
            place += 1;
            assert(self@ =~= Seq::new(
                64,
                |i: int|
                    if i < place {
                        retargeted(old(self)@[i], to)
                    } else {
                        old(self)@[i]
                    },
            ));
        }
        assert(self@ =~= old(self)@.map_values(|state: SlotState| retargeted(state, to)));
    }

    /// Ends a take at the given frame, whatever was asked of it before. A pad that is not
    /// capturing is left alone.
    pub fn finish_recording_at(&mut self, addr: SlotAddr, at: Frames)
        ensures
            old(self)@.len() == 64,
            final(self)@ == (match old(self)@[addr.place()] {
                SlotState::Recording { started_at, ends_at: _ } => old(self)@.update(
                    addr.place(),
                    SlotState::Recording { started_at, ends_at: Some(at) },
                ),
                _ => old(self)@,
            }),
    {
        if let SlotState::Recording { started_at, .. } = self.state(addr) {
            self.set(addr, SlotState::Recording { started_at, ends_at: Some(at) });
        }
    }
}

/// Whether a pad holds its track: it sounds or captures and is not on its way out, or it is
/// waiting to.
pub open spec fn holds_track(state: SlotState) -> bool {
    state is Playing || state is QueuedPlay || state.recording()
}

/// Whether no track is held by two of its pads.
pub open spec fn one_per_track(states: Seq<SlotState>) -> bool {
    forall|a: int, b: int|
        #![trigger states[a], states[b]]
        0 <= a < 64 && 0 <= b < 64 && a / 8 == b / 8 && holds_track(states[a]) && holds_track(
            states[b],
        ) ==> a == b
}

/// A press touches its own track alone: tracks do not interfere with each other.
pub proof fn tracks_do_not_interfere(states: Seq<SlotState>, addr: SlotAddr, ctx: Ctx, place: int)
    requires
        states.len() == 64,
        addr.wf(),
        0 <= place < 64,
        place / 8 != addr.track.num(),
    ensures
        after_press(states, addr, ctx)[place] == states[place],
{
}

/// Whether a pad is putting audio out or taking it in.
pub open spec fn active(state: SlotState) -> bool {
    state.sounding() || state is Recording
}

/// Whether no track has two of its pads putting audio out or taking it in.
pub open spec fn one_active(states: Seq<SlotState>) -> bool {
    forall|a: int, b: int|
        #![trigger states[a], states[b]]
        0 <= a < 64 && 0 <= b < 64 && a / 8 == b / 8 && active(states[a]) && active(states[b])
            ==> a == b
}

/// A press never gives a track to two pads: neither to hold, nor to sound or record at once.
pub proof fn press_keeps_one_per_track(states: Seq<SlotState>, addr: SlotAddr, ctx: Ctx)
    requires
        states.len() == 64,
        addr.wf(),
        one_per_track(states),
        one_active(states),
    ensures
        one_per_track(answered(states, addr, ctx)),
        one_active(answered(states, addr, ctx)),
{
    let after = after_press(states, addr, ctx);
    let own = addr.place();
    places_are_addresses(addr, 0);
    if !busy_elsewhere(states, addr) {
        assert forall|a: int, b: int|
            #![trigger after[a], after[b]]
            0 <= a < 64 && 0 <= b < 64 && a / 8 == b / 8 && holds_track(after[a]) && holds_track(
                after[b],
            ) implies a == b by {
            assert(own / 8 == addr.track.num());
            assert(states[a] == states[a] && states[b] == states[b]);
            if a / 8 == addr.track.num() {
                nobody_else_records(states, addr);
                if a != b {
                    assert(states[own] == states[own]);
                    if a == own {
                        assert(holds_track(after[b]));
                    } else if b == own {
                        assert(holds_track(after[a]));
                    } else {
                        assert(holds_track(after[a]) ==> holds_track(states[a]));
                        assert(holds_track(after[b]) ==> holds_track(states[b]));
                    }
                }
            }
        }
    }
}

/// Where no other pad of the track is recording, none of its places is.
proof fn nobody_else_records(states: Seq<SlotState>, addr: SlotAddr)
    requires
        addr.wf(),
        !busy_elsewhere(states, addr),
    ensures
        forall|p: int|
            #![trigger states[p]]
            0 <= p < 64 && p / 8 == addr.track.num() && p != addr.place()
                ==> !states[p].recording(),
{
    assert forall|p: int|
        #![trigger states[p]]
        0 <= p < 64 && p / 8 == addr.track.num() && p
            != addr.place() implies !states[p].recording() by {
        let other = SlotAddr::at(p);
        places_are_addresses(other, p);
        places_are_addresses(addr, 0);
        assert(other.track == addr.track);
        assert(states[other.place()] == states[p]);
    }
}

/// Whether no track has two pads at work, now or once everything that waits on a bar line no
/// later than `line` has come due: where one pad waits to take a track over, the pad still at
/// work on it stops no later than that.
pub open spec fn one_at_work(states: Seq<SlotState>, line: int) -> bool {
    &&& one_per_track(states)
    &&& forall|a: int|
        0 <= a < 64 ==> ((#[trigger] states[a]) matches SlotState::QueuedStop { clip: _, at }
            ==> at.0 <= line)
    &&& forall|a: int, b: int|
        #![trigger states[a], states[b]]
        0 <= a < 64 && 0 <= b < 64 && a / 8 == b / 8 && a != b && active(states[a])
            ==> makes_room(states[a], states[b])
}

/// Whether a pad that is at work leaves a track to another: the other is not at work, and where
/// it waits to be, the pad stops first.
pub open spec fn makes_room(state: SlotState, other: SlotState) -> bool {
    &&& !active(other)
    &&& takeover(other) matches Some(start) ==> (state matches SlotState::QueuedStop {
        clip: _,
        at,
    } && at.0 <= start.0)
}

/// No track ever has two pads at work. It holds of an empty grid, and whatever is done to the
/// pads keeps it, at a position that never goes back: a press, the transport moving on, a stop
/// of everything or of one track, and a clear.
pub proof fn one_pad_per_track_at_work(
    states: Seq<SlotState>,
    earlier: Frames,
    addr: SlotAddr,
    ctx: Ctx,
)
    requires
        states.len() == 64,
        addr.wf(),
        ctx.grid.wf(),
        can_press(states[addr.place()], ctx),
        one_at_work(states, ctx.grid.line_after(earlier.0 as int)),
        earlier.0 <= ctx.now.0,
    ensures
        one_at_work(
            Seq::new(64, |i: int| SlotState::Empty),
            ctx.grid.line_after(earlier.0 as int),
        ),
        ({
            let line = ctx.grid.line_after(ctx.now.0 as int);
            &&& one_at_work(answered(states, addr, ctx), line)
            &&& one_at_work(states.map_values(|state: SlotState| advanced(state, ctx).0), line)
            &&& one_at_work(states.map_values(|state: SlotState| stopped(state)), line)
            &&& one_at_work(
                Seq::new(
                    64,
                    |i: int|
                        if i / 8 == addr.track.num() {
                            stopped(states[i])
                        } else {
                            states[i]
                        },
                ),
                line,
            )
            &&& one_at_work(states.update(addr.place(), SlotState::Empty), line)
        }),
        one_active(states),
{
    let line = ctx.grid.line_after(ctx.now.0 as int);
    lines_climb(ctx.grid, earlier.0 as int, ctx.now.0 as int);
    places_are_addresses(addr, 0);
    assert(one_active(states));
    press_keeps_one_per_track(states, addr, ctx);
    advance_keeps_one_per_track(states, ctx);
    let after = answered(states, addr, ctx);
    let own = addr.place();
    if !busy_elsewhere(states, addr) {
        nobody_else_records(states, addr);
        assert forall|a: int, b: int|
            #![trigger after[a], after[b]]
            0 <= a < 64 && 0 <= b < 64 && a / 8 == b / 8 && a != b && active(
                after[a],
            ) implies makes_room(after[a], after[b]) by {
            assert(states[a] == states[a] && states[b] == states[b]);
            assert(states[own] == states[own]);
            assert(own / 8 == addr.track.num());
        }
    }
    let moved_on = states.map_values(|state: SlotState| advanced(state, ctx).0);
    assert forall|a: int, b: int|
        #![trigger moved_on[a], moved_on[b]]
        0 <= a < 64 && 0 <= b < 64 && a / 8 == b / 8 && a != b && active(
            moved_on[a],
        ) implies makes_room(moved_on[a], moved_on[b]) by {
        assert(states[a] == states[a] && states[b] == states[b]);
        assert(active(states[a]) || takeover(states[a]) is Some);
        assert(active(states[b]) ==> makes_room(states[b], states[a]));
        assert(active(states[a]) ==> makes_room(states[a], states[b]));
        assert(holds_track(states[a]) && holds_track(states[b]) ==> a == b);
    }
    let cut = states.update(own, SlotState::Empty);
    assert forall|a: int, b: int|
        #![trigger cut[a], cut[b]]
        0 <= a < 64 && 0 <= b < 64 && a / 8 == b / 8 && a != b && active(
            cut[a],
        ) implies makes_room(cut[a], cut[b]) by {
        assert(states[a] == states[a] && states[b] == states[b]);
    }
    assert forall|a: int, b: int|
        #![trigger cut[a], cut[b]]
        0 <= a < 64 && 0 <= b < 64 && a / 8 == b / 8 && holds_track(cut[a]) && holds_track(
            cut[b],
        ) implies a == b by {
        assert(states[a] == states[a] && states[b] == states[b]);
    }
    let quiet = Seq::new(
        64,
        |i: int|
            if i / 8 == addr.track.num() {
                stopped(states[i])
            } else {
                states[i]
            },
    );
    assert forall|a: int, b: int|
        #![trigger quiet[a], quiet[b]]
        0 <= a < 64 && 0 <= b < 64 && a / 8 == b / 8 && holds_track(quiet[a]) && holds_track(
            quiet[b],
        ) implies a == b by {
        assert(states[a] == states[a] && states[b] == states[b]);
    }
}

/// The transport moving on, a stop and a clear never give a track to a second pad. Once every
/// stop that was queued has come due, each track sounds from one pad at most.
pub proof fn advance_keeps_one_per_track(states: Seq<SlotState>, ctx: Ctx)
    requires
        states.len() == 64,
        one_per_track(states),
    ensures
        one_per_track(states.map_values(|state: SlotState| advanced(state, ctx).0)),
        one_per_track(states.map_values(|state: SlotState| stopped(state))),
        (forall|place: int|
            0 <= place < 64 ==> ((#[trigger] states[place]) matches SlotState::QueuedStop {
                clip: _,
                at,
            } ==> at.0 <= ctx.now.0)) ==> forall|a: int, b: int|
            0 <= a < 64 && 0 <= b < 64 && a / 8 == b / 8 && (#[trigger] advanced(
                states[a],
                ctx,
            )).0.sounding() && (#[trigger] advanced(states[b], ctx)).0.sounding() ==> a == b,
{
    let after = states.map_values(|state: SlotState| advanced(state, ctx).0);
    assert forall|a: int, b: int|
        #![trigger after[a], after[b]]
        0 <= a < 64 && 0 <= b < 64 && a / 8 == b / 8 && holds_track(after[a]) && holds_track(
            after[b],
        ) implies a == b by {
        assert(holds_track(states[a]) && holds_track(states[b]));
    }
    let silent = states.map_values(|state: SlotState| stopped(state));
    assert forall|a: int, b: int|
        #![trigger silent[a], silent[b]]
        0 <= a < 64 && 0 <= b < 64 && a / 8 == b / 8 && holds_track(silent[a]) && holds_track(
            silent[b],
        ) implies a == b by {
        assert(!holds_track(stopped(states[a])));
    }
    if forall|place: int|
        0 <= place < 64 ==> ((#[trigger] states[place]) matches SlotState::QueuedStop {
            clip: _,
            at,
        } ==> at.0 <= ctx.now.0) {
        assert forall|a: int, b: int|
            0 <= a < 64 && 0 <= b < 64 && a / 8 == b / 8 && (#[trigger] advanced(
                states[a],
                ctx,
            )).0.sounding() && (#[trigger] advanced(states[b], ctx)).0.sounding() implies a == b by {
            assert(holds_track(states[a]) && holds_track(states[b]));
        }
    }
}

/// A take in progress holds its track: a press anywhere else on it changes nothing.
pub proof fn recording_holds_the_track(
    states: Seq<SlotState>,
    addr: SlotAddr,
    recording: SlotAddr,
)
    requires
        addr.wf(),
        recording.wf(),
        addr.track == recording.track,
        addr != recording,
        states[recording.place()].recording(),
    ensures
        busy_elsewhere(states, addr),
{
}

/// Stopping and clearing begin no take.
pub proof fn stopping_begins_nothing(
    states: Seq<SlotState>,
    inputs: spec_fn(SlotState) -> Option<SlotInput>,
    ctx: Ctx,
    from: int,
    to: int,
)
    requires
        forall|state: SlotState|
            (#[trigger] inputs(state)) is None || inputs(state) == Some(SlotInput::Stop) || inputs(
                state,
            ) == Some(SlotInput::Clear),
    ensures
        forall|i: int|
            0 <= i < swept(states, inputs, ctx, from, to).len() ==> !((#[trigger] swept(
                states,
                inputs,
                ctx,
                from,
                to,
            )[i]).1 is StartCapture),
    decreases to - from,
{
    if to > from {
        stopping_begins_nothing(states, inputs, ctx, from, to - 1);
        let before = swept(states, inputs, ctx, from, to - 1);
        let all = swept(states, inputs, ctx, from, to);
        assert forall|i: int| 0 <= i < all.len() implies !((#[trigger] all[i]).1 is StartCapture) by {
            if i < before.len() {
                assert(all[i] == before[i]);
            } else {
                let input = inputs(states[to - 1])->Some_0;
                let effects = stepped(states[to - 1], input, ctx).1;
                assert(all[i] == (SlotAddr::at(to - 1), effects[i - before.len()]));
            }
        }
    }
}

/// A pad that is to take its track over does so on one bar line with the pad it takes it from:
/// that one sounds up to the line and no longer, and one that was only waiting waits no more. No
/// clip is lost. A press that takes nothing over leaves the other pads be, but for a launch that
/// was to follow a stop now taken back.
pub proof fn a_launch_hands_over(states: Seq<SlotState>, addr: SlotAddr, ctx: Ctx, place: int)
    requires
        states.len() == 64,
        addr.wf(),
        !busy_elsewhere(states, addr),
        0 <= place < 64,
        place / 8 == addr.track.num(),
        place != addr.place(),
    ensures
        ({
            let was = states[place];
            let now = answered(states, addr, ctx)[place];
            let own = answered(states, addr, ctx)[addr.place()];
            &&& now.held() == was.held()
            &&& now.sounding() == was.sounding()
            &&& own matches SlotState::QueuedPlay { clip: _, at } ==> (was is Playing
                ==> now is QueuedStop && due(now) == Some(at)) && !(now is QueuedPlay)
            &&& own matches SlotState::QueuedRecord { at } ==> (was is Playing
                ==> now is QueuedStop && due(now) == Some(at)) && !(now is QueuedPlay)
            &&& !(own is QueuedPlay || own is QueuedRecord) ==> now == was || (
            states[addr.place()] is QueuedStop && was is QueuedPlay && now is Stopped)
        }),
{
    places_are_addresses(addr, place);
}

/// Going back to the start moves what waits to the first frame, and changes nothing else of a pad.
pub proof fn retargeting_moves_what_waits(state: SlotState, to: Frames)
    ensures
        retargeted(state, to).held() == state.held(),
        retargeted(state, to).sounding() == state.sounding(),
        retargeted(state, to).recording() == state.recording(),
        retargeted(state, to).pending() == state.pending(),
        due(retargeted(state, to)) == (if state.pending() {
            Some(to)
        } else {
            None
        }),
{
}

} // verus!
