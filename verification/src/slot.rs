//! The slot state machine.
//!
//! [`step`] is pure and allocation-free; the transport position comes from the [`Ctx`]
//! it is handed rather than a clock.
//!
//! Queued transitions store the frame they are due at. [`SlotInput::Advance`] fires them
//! once due, so every [`Effect`] means "do this at exactly this frame".

use vstd::prelude::*;

use crate::grid::BarGrid;
use crate::ids::ClipId;
use crate::time::Frames;

verus! {

/// What a slot is doing.
#[derive(Debug, Clone, Copy, PartialEq, Eq, Structural)]
pub enum SlotState {
    /// Nothing recorded here.
    Empty,
    /// Recording will begin at the stored bar boundary.
    QueuedRecord {
        /// When capture starts.
        at: Frames,
    },
    /// Capturing input.
    Recording {
        /// The bar boundary capture began on.
        started_at: Frames,
        /// The bar boundary capture will end on, once the user has asked it to stop.
        ends_at: Option<Frames>,
    },
    /// Holds a clip that is not sounding.
    Stopped {
        /// The clip held here.
        clip: ClipId,
    },
    /// Playback will begin at the stored bar boundary.
    QueuedPlay {
        /// The clip that will play.
        clip: ClipId,
        /// When playback starts.
        at: Frames,
    },
    /// Sounding.
    Playing {
        /// The clip that is sounding.
        clip: ClipId,
    },
    /// Playback will end at the stored bar boundary.
    QueuedStop {
        /// The clip that is sounding.
        clip: ClipId,
        /// When playback stops.
        at: Frames,
    },
}

impl Default for SlotState {
    fn default() -> (r: Self)
        ensures
            r is Empty,
    {
        SlotState::Empty
    }
}

impl SlotState {
    /// The clip held here, if any.
    pub open spec fn held(self) -> Option<ClipId> {
        match self {
            SlotState::Stopped { clip } => Some(clip),
            SlotState::QueuedPlay { clip, at: _ } => Some(clip),
            SlotState::Playing { clip } => Some(clip),
            SlotState::QueuedStop { clip, at: _ } => Some(clip),
            _ => None,
        }
    }

    /// Putting audio out.
    pub open spec fn sounding(self) -> bool {
        self is Playing || self is QueuedStop
    }

    /// Recording or about to.
    pub open spec fn recording(self) -> bool {
        self is QueuedRecord || self is Recording
    }

    /// Waiting on a bar boundary.
    pub open spec fn pending(self) -> bool {
        match self {
            SlotState::Recording { started_at: _, ends_at } => ends_at is Some,
            _ => self is QueuedRecord || self is QueuedPlay || self is QueuedStop,
        }
    }

    /// The clip held here, if any. A slot still recording has none yet.
    pub fn clip(self) -> (r: Option<ClipId>)
        ensures
            r == self.held(),
    {
        match self {
            SlotState::Empty => None,
            SlotState::QueuedRecord { .. } => None,
            SlotState::Recording { .. } => None,
            SlotState::Stopped { clip } => Some(clip),
            SlotState::QueuedPlay { clip, .. } => Some(clip),
            SlotState::Playing { clip } => Some(clip),
            SlotState::QueuedStop { clip, .. } => Some(clip),
        }
    }

    /// Whether this slot is currently producing or consuming audio.
    pub fn is_active(self) -> (r: bool)
        ensures
            r == (self.sounding() || self is Recording),
    {
        matches!(
            self,
            SlotState::Recording { .. } | SlotState::Playing { .. } | SlotState::QueuedStop { .. }
        )
    }

    /// Whether this slot is putting audio out.
    ///
    /// A queued stop is still sounding until its boundary arrives.
    pub fn is_sounding(self) -> (r: bool)
        ensures
            r == self.sounding(),
    {
        matches!(self, SlotState::Playing { .. } | SlotState::QueuedStop { .. })
    }

    /// Whether this slot is waiting on a bar boundary.
    pub fn is_pending(self) -> (r: bool)
        ensures
            r == self.pending(),
    {
        match self {
            SlotState::QueuedRecord { .. } => true,
            SlotState::QueuedPlay { .. } => true,
            SlotState::QueuedStop { .. } => true,
            SlotState::Recording { ends_at, .. } => ends_at.is_some(),
            SlotState::Empty => false,
            SlotState::Stopped { .. } => false,
            SlotState::Playing { .. } => false,
        }
    }

    /// Whether this slot is recording or about to.
    pub fn is_recording(self) -> (r: bool)
        ensures
            r == self.recording(),
    {
        matches!(self, SlotState::QueuedRecord { .. } | SlotState::Recording { .. })
    }
}

/// Something that happened to a slot.
#[derive(Debug, Clone, Copy, PartialEq, Eq, Structural)]
pub enum SlotInput {
    /// The user pressed this pad.
    Press,
    /// The transport reached [`Ctx::now`]; fire anything that has come due.
    Advance,
    /// Another slot on this track is taking over at the given boundary.
    Yield {
        /// When the takeover happens.
        at: Frames,
    },
    /// Stop immediately, without quantisation. Discards an in-progress recording.
    Stop,
    /// Forget the clip held here.
    Clear,
}

/// Work to carry out at an exact frame.
#[derive(Debug, Clone, Copy, PartialEq, Eq, Structural)]
pub enum Effect {
    /// Begin capturing input.
    StartCapture {
        /// The frame capture begins on.
        at: Frames,
    },
    /// Seal the captured input into a clip.
    FinishCapture {
        /// The id to give the new clip, from [`Ctx::next_clip_id`].
        clip: ClipId,
        /// The frame capture began on; fixes the clip's loop phase against the grid.
        started_at: Frames,
        /// The frame capture ends on.
        at: Frames,
    },
    /// Discard the in-progress recording.
    CancelCapture,
    /// Begin playing a clip.
    StartPlayback {
        /// The clip to play.
        clip: ClipId,
        /// The frame playback begins on.
        at: Frames,
    },
    /// Stop playing whatever this slot was playing.
    StopPlayback {
        /// The frame playback ends on.
        at: Frames,
    },
    /// Drop this slot's reference to a clip.
    ReleaseClip {
        /// The clip being let go.
        clip: ClipId,
    },
}

/// A fixed-capacity effect list, inline so [`step`] never allocates.
#[derive(Debug, Clone, Copy, PartialEq, Eq, Structural)]
pub struct Effects {
    first: Option<Effect>,
    second: Option<Effect>,
    third: Option<Effect>,
}

impl Effects {
    /// The list has no gap.
    #[verifier::type_invariant]
    closed spec fn wf(self) -> bool {
        &&& self.first is None ==> self.second is None
        &&& self.second is None ==> self.third is None
    }

    /// The effects, in the order they should be applied.
    pub closed spec fn view(self) -> Seq<Effect> {
        match (self.first, self.second, self.third) {
            (Some(a), Some(b), Some(c)) => seq![a, b, c],
            (Some(a), Some(b), None) => seq![a, b],
            (Some(a), _, _) => seq![a],
            _ => Seq::empty(),
        }
    }

    /// An empty list.
    pub fn new() -> (r: Self)
        ensures
            r.view() == Seq::<Effect>::empty(),
    {
        Effects { first: None, second: None, third: None }
    }

    /// A list of one.
    fn one(effect: Effect) -> (r: Self)
        ensures
            r.view() == seq![effect],
    {
        Effects { first: Some(effect), second: None, third: None }
    }

    /// A list of two.
    fn two(first: Effect, second: Effect) -> (r: Self)
        ensures
            r.view() == seq![first, second],
    {
        Effects { first: Some(first), second: Some(second), third: None }
    }

    /// A list of up to three. It holds what it is made of, in the same order.
    pub fn from_iter(effects: &[Effect]) -> (r: Self)
        requires
            effects@.len() <= 3,
        ensures
            r.view() == effects@,
    {
        let count: usize = effects.len();
        let first: Option<Effect> = if count > 0 {
            Some(effects[0])
        } else {
            None
        };
        let second: Option<Effect> = if count > 1 {
            Some(effects[1])
        } else {
            None
        };
        let third: Option<Effect> = if count > 2 {
            Some(effects[2])
        } else {
            None
        };
        let r = Effects { first, second, third };
        assert(r.view() =~= effects@);
        r
    }

    /// How many effects were produced.
    pub fn len(self) -> (r: usize)
        ensures
            r == self.view().len(),
            r <= 3,
    {
        proof {
            use_type_invariant(&self);
        }
        if self.first.is_none() {
            0
        } else if self.second.is_none() {
            1
        } else if self.third.is_none() {
            2
        } else {
            3
        }
    }

    /// Whether the transition produced no effects.
    pub fn is_empty(self) -> (r: bool)
        ensures
            r == (self.view().len() == 0),
    {
        proof {
            use_type_invariant(&self);
        }
        self.first.is_none()
    }

    /// The effect at a place in the list.
    pub fn get(self, index: usize) -> (r: Option<Effect>)
        ensures
            r == (if index < self.view().len() {
                Some(self.view()[index as int])
            } else {
                None
            }),
    {
        proof {
            use_type_invariant(&self);
        }
        match index {
            0 => self.first,
            1 => self.second,
            2 => self.third,
            _ => None,
        }
    }

    /// The effects, in the order they should be applied.
    pub fn iter(&self) -> (r: Vec<Effect>)
        ensures
            r@ == self.view(),
    {
        let mut out: Vec<Effect> = Vec::new();
        let len: usize = self.len();
        let mut index: usize = 0;
        while index < len
            invariant
                index <= len,
                len == self.view().len(),
                out@ == self.view().take(index as int),
            decreases len - index,
        {
            if let Some(effect) = self.get(index) {
                out.push(effect);
            }
            index += 1;
            assert(out@ =~= self.view().take(index as int));
        }
        assert(out@ =~= self.view());
        out
    }
}

impl Default for Effects {
    fn default() -> (r: Self)
        ensures
            r.view() == Seq::<Effect>::empty(),
    {
        Effects::new()
    }
}

/// Everything [`step`] needs to know about the world.
#[derive(Debug, Clone, Copy, PartialEq, Eq, Structural)]
pub struct Ctx {
    /// The transport position this step is being evaluated at.
    pub now: Frames,
    /// The bar grid.
    pub grid: BarGrid,
    /// The id to give the next clip that finishes recording.
    pub next_clip_id: ClipId,
}

/// A press arms, launches or stops on the next bar line, or takes back what an earlier press
/// queued. Nothing happens at once.
pub open spec fn pressed(state: SlotState, ctx: Ctx) -> SlotState {
    let line = Frames(ctx.grid.line_after(ctx.now.0 as int) as u64);
    match state {
        SlotState::Empty => SlotState::QueuedRecord { at: line },
        SlotState::QueuedRecord { at: _ } => SlotState::Empty,
        SlotState::Recording { started_at, ends_at: None } => SlotState::Recording {
            started_at,
            ends_at: Some(
                Frames(ctx.grid.record_end(started_at.0 as int, ctx.now.0 as int) as u64),
            ),
        },
        SlotState::Recording { started_at, ends_at: Some(_) } => SlotState::Recording {
            started_at,
            ends_at: None,
        },
        SlotState::Stopped { clip } => SlotState::QueuedPlay { clip, at: line },
        SlotState::QueuedPlay { clip, at: _ } => SlotState::Stopped { clip },
        SlotState::Playing { clip } => SlotState::QueuedStop { clip, at: line },
        SlotState::QueuedStop { clip, at: _ } => SlotState::Playing { clip },
    }
}

/// The frame a queued transition is due at.
pub open spec fn due(state: SlotState) -> Option<Frames> {
    match state {
        SlotState::QueuedRecord { at } => Some(at),
        SlotState::Recording { started_at: _, ends_at } => ends_at,
        SlotState::QueuedPlay { clip: _, at } => Some(at),
        SlotState::QueuedStop { clip: _, at } => Some(at),
        _ => None,
    }
}

/// What a queued transition turns into when it fires, and the work it calls for.
pub open spec fn fired(state: SlotState, at: Frames, next: ClipId) -> (SlotState, Seq<Effect>) {
    match state {
        SlotState::QueuedRecord { at: _ } => (
            SlotState::Recording { started_at: at, ends_at: None },
            seq![Effect::StartCapture { at }],
        ),
        SlotState::Recording { started_at, ends_at: _ } => (
            SlotState::Playing { clip: next },
            seq![
                Effect::FinishCapture { clip: next, started_at, at },
                Effect::StartPlayback { clip: next, at },
            ],
        ),
        SlotState::QueuedPlay { clip, at: _ } => (
            SlotState::Playing { clip },
            seq![Effect::StartPlayback { clip, at }],
        ),
        SlotState::QueuedStop { clip, at: _ } => (
            SlotState::Stopped { clip },
            seq![Effect::StopPlayback { at }],
        ),
        _ => (state, seq![]),
    }
}

/// The transport reaching a position fires what is due by then and nothing else.
pub open spec fn advanced(state: SlotState, ctx: Ctx) -> (SlotState, Seq<Effect>) {
    match due(state) {
        Some(at) if at.0 <= ctx.now.0 => fired(state, at, ctx.next_clip_id),
        _ => (state, seq![]),
    }
}

/// A sibling taking over ends what is sounding on its boundary, and what never started.
pub open spec fn yielded(state: SlotState, at: Frames) -> SlotState {
    match state {
        SlotState::Playing { clip } => SlotState::QueuedStop { clip, at },
        SlotState::QueuedPlay { clip, at: _ } => SlotState::Stopped { clip },
        _ => state,
    }
}

/// What is let go of when a slot is silenced at once: playback, or the take in progress.
pub open spec fn silenced(state: SlotState, now: Frames) -> Seq<Effect> {
    if state.sounding() {
        seq![Effect::StopPlayback { at: now }]
    } else if state is Recording {
        seq![Effect::CancelCapture]
    } else {
        seq![]
    }
}

/// A stop keeps the clip and nothing else.
pub open spec fn stopped(state: SlotState) -> SlotState {
    match state.held() {
        Some(clip) => SlotState::Stopped { clip },
        None => SlotState::Empty,
    }
}

/// Clearing silences the slot and lets its clip go.
pub open spec fn cleared(state: SlotState, now: Frames) -> Seq<Effect> {
    match state.held() {
        Some(clip) => silenced(state, now) + seq![Effect::ReleaseClip { clip }],
        None => silenced(state, now),
    }
}

/// The state a slot moves to and the work that calls for, in order.
pub open spec fn stepped(state: SlotState, input: SlotInput, ctx: Ctx) -> (SlotState, Seq<Effect>) {
    match input {
        SlotInput::Press => (pressed(state, ctx), seq![]),
        SlotInput::Advance => advanced(state, ctx),
        SlotInput::Yield { at } => (yielded(state, at), seq![]),
        SlotInput::Stop => (stopped(state), silenced(state, ctx.now)),
        SlotInput::Clear => (SlotState::Empty, cleared(state, ctx.now)),
    }
}

/// Whether the frames a press would schedule can be counted.
pub open spec fn can_press(state: SlotState, ctx: Ctx) -> bool {
    &&& ctx.grid.line_after(ctx.now.0 as int) <= u64::MAX
    &&& state matches SlotState::Recording { started_at, ends_at: None } ==> started_at.0
        + ctx.grid.bar() <= u64::MAX
}

/// Advances one slot. Pure and allocation-free.
pub fn step(state: SlotState, input: SlotInput, ctx: &Ctx) -> (r: (SlotState, Effects))
    requires
        input is Press ==> can_press(state, *ctx),
    ensures
        r.0 == stepped(state, input, *ctx).0,
        r.1.view() == stepped(state, input, *ctx).1,
{
    match input {
        SlotInput::Press => press(state, ctx),
        SlotInput::Advance => advance(state, ctx),
        SlotInput::Yield { at } => yield_to_sibling(state, at),
        SlotInput::Stop => stop(state, ctx),
        SlotInput::Clear => clear(state, ctx),
    }
}

fn press(state: SlotState, ctx: &Ctx) -> (r: (SlotState, Effects))
    requires
        can_press(state, *ctx),
    ensures
        r.0 == pressed(state, *ctx),
        r.1.view() == Seq::<Effect>::empty(),
{
    let next_boundary: Frames = ctx.grid.next_boundary(ctx.now);
    let next: SlotState = match state {
        // Arm for the next bar line.
        SlotState::Empty => SlotState::QueuedRecord { at: next_boundary },
        // Disarm; nothing had started.
        SlotState::QueuedRecord { .. } => SlotState::Empty,
        // Queue the record stop, rounded to whole bars.
        SlotState::Recording { started_at, ends_at: None } => SlotState::Recording {
            started_at,
            ends_at: Some(ctx.grid.quantize_record_end(started_at, ctx.now)),
        },
        // Cancel the queued stop, keep recording.
        SlotState::Recording { started_at, ends_at: Some(_) } => SlotState::Recording {
            started_at,
            ends_at: None,
        },
        SlotState::Stopped { clip } => SlotState::QueuedPlay { clip, at: next_boundary },
        SlotState::QueuedPlay { clip, .. } => SlotState::Stopped { clip },
        SlotState::Playing { clip } => SlotState::QueuedStop { clip, at: next_boundary },
        SlotState::QueuedStop { clip, .. } => SlotState::Playing { clip },
    };
    (next, Effects::new())
}

fn advance(state: SlotState, ctx: &Ctx) -> (r: (SlotState, Effects))
    ensures
        r.0 == advanced(state, *ctx).0,
        r.1.view() == advanced(state, *ctx).1,
{
    match state {
        SlotState::QueuedRecord { at } => {
            if ctx.now.0 >= at.0 {
                (
                    SlotState::Recording { started_at: at, ends_at: None },
                    Effects::one(Effect::StartCapture { at }),
                )
            } else {
                (state, Effects::new())
            }
        },
        SlotState::Recording { started_at, ends_at } => {
            // A recording nobody has stopped runs until the storage does.
            let Some(due) = ends_at else {
                return (state, Effects::new());
            };
            if ctx.now.0 < due.0 {
                return (state, Effects::new());
            }
            let clip: ClipId = ctx.next_clip_id;
            (
                // Capture rolls straight into playback.
                SlotState::Playing { clip },
                Effects::two(
                    Effect::FinishCapture { clip, started_at, at: due },
                    Effect::StartPlayback { clip, at: due },
                ),
            )
        },
        SlotState::QueuedPlay { clip, at } => {
            if ctx.now.0 >= at.0 {
                (SlotState::Playing { clip }, Effects::one(Effect::StartPlayback { clip, at }))
            } else {
                (state, Effects::new())
            }
        },
        SlotState::QueuedStop { clip, at } => {
            if ctx.now.0 >= at.0 {
                (SlotState::Stopped { clip }, Effects::one(Effect::StopPlayback { at }))
            } else {
                (state, Effects::new())
            }
        },
        _ => (state, Effects::new()),
    }
}

fn yield_to_sibling(state: SlotState, at: Frames) -> (r: (SlotState, Effects))
    ensures
        r.0 == yielded(state, at),
        r.1.view() == Seq::<Effect>::empty(),
{
    match state {
        // Hand over on the boundary the newcomer starts on.
        SlotState::Playing { clip } => (SlotState::QueuedStop { clip, at }, Effects::new()),
        // Never started, so nothing to stop.
        SlotState::QueuedPlay { clip, .. } => (SlotState::Stopped { clip }, Effects::new()),
        _ => (state, Effects::new()),
    }
}

fn stop(state: SlotState, ctx: &Ctx) -> (r: (SlotState, Effects))
    ensures
        r.0 == stopped(state),
        r.1.view() == silenced(state, ctx.now),
{
    match state {
        SlotState::Playing { clip } => (
            SlotState::Stopped { clip },
            Effects::one(Effect::StopPlayback { at: ctx.now }),
        ),
        SlotState::QueuedStop { clip, .. } => (
            SlotState::Stopped { clip },
            Effects::one(Effect::StopPlayback { at: ctx.now }),
        ),
        SlotState::QueuedPlay { clip, .. } => (SlotState::Stopped { clip }, Effects::new()),
        SlotState::Recording { .. } => (SlotState::Empty, Effects::one(Effect::CancelCapture)),
        SlotState::QueuedRecord { .. } => (SlotState::Empty, Effects::new()),
        SlotState::Empty => (state, Effects::new()),
        SlotState::Stopped { .. } => (state, Effects::new()),
    }
}

fn clear(state: SlotState, ctx: &Ctx) -> (r: (SlotState, Effects))
    ensures
        r.0 is Empty,
        r.1.view() == cleared(state, ctx.now),
{
    let effects: Effects = match state {
        SlotState::Playing { clip } => Effects::two(
            Effect::StopPlayback { at: ctx.now },
            Effect::ReleaseClip { clip },
        ),
        SlotState::QueuedStop { clip, .. } => Effects::two(
            Effect::StopPlayback { at: ctx.now },
            Effect::ReleaseClip { clip },
        ),
        SlotState::Stopped { clip } => Effects::one(Effect::ReleaseClip { clip }),
        SlotState::QueuedPlay { clip, .. } => Effects::one(Effect::ReleaseClip { clip }),
        SlotState::Recording { .. } => Effects::one(Effect::CancelCapture),
        SlotState::Empty => Effects::new(),
        SlotState::QueuedRecord { .. } => Effects::new(),
    };
    assert(effects.view() =~= cleared(state, ctx.now));
    (SlotState::Empty, effects)
}

/// Advancing twice at one position is advancing once: a transition fires a single time.
pub proof fn advance_is_idempotent(state: SlotState, ctx: Ctx)
    ensures
        advanced(advanced(state, ctx).0, ctx) == (advanced(state, ctx).0, Seq::<Effect>::empty()),
{
}

/// A press on a slot with nothing queued is taken back by a second one, wherever the
/// transport is by then.
pub proof fn second_press_cancels(state: SlotState, first: Ctx, second: Ctx)
    requires
        !state.pending(),
    ensures
        pressed(pressed(state, first), second) == state,
{
}

/// A press only ever queues: what it schedules lies on a bar line at or after the press,
/// except for a take, which ends on the line it was rounded to.
pub proof fn launches_are_quantised(state: SlotState, ctx: Ctx)
    requires
        ctx.grid.wf(),
        can_press(state, ctx),
        !(state is Recording),
    ensures
        due(pressed(state, ctx)) matches Some(at) ==> at.0 >= ctx.now.0 && at.0 as int
            % ctx.grid.bar() == 0 && at.0 - ctx.now.0 < ctx.grid.bar(),
{
    crate::grid::lines_bracket(ctx.grid, ctx.now.0 as int);
}

/// Clearing always leaves a slot empty, and lets go of its clip exactly when it held one.
pub proof fn clear_lets_go(state: SlotState, ctx: Ctx, clip: ClipId)
    ensures
        stepped(state, SlotInput::Clear, ctx).0 is Empty,
        stepped(state, SlotInput::Clear, ctx).1.contains(Effect::ReleaseClip { clip }) <==> state.held()
            == Some(clip),
{
    let effects = cleared(state, ctx.now);
    if state.held() == Some(clip) {
        assert(effects.last() == Effect::ReleaseClip { clip });
    }
}

/// A stop leaves a slot neither sounding nor recording, and no clip is lost by it.
pub proof fn stop_silences(state: SlotState)
    ensures
        !stopped(state).sounding(),
        !stopped(state).recording(),
        !stopped(state).pending(),
        stopped(state).held() == state.held(),
{
}

/// Pressing, yielding and stopping never lose a clip and never make one up.
pub proof fn clips_are_kept(state: SlotState, ctx: Ctx, at: Frames)
    ensures
        pressed(state, ctx).held() == state.held(),
        yielded(state, at).held() == state.held(),
        state.held() is Some ==> advanced(state, ctx).0.held() == state.held(),
{
}

/// Whether work calls for a playback to start.
pub open spec fn starts_playback(work: Seq<Effect>) -> bool {
    exists|i: int| 0 <= i < work.len() && (#[trigger] work[i]) is StartPlayback
}

/// Whether work calls for a playback to stop.
pub open spec fn stops_playback(work: Seq<Effect>) -> bool {
    exists|i: int| 0 <= i < work.len() && (#[trigger] work[i]) is StopPlayback
}

/// Whether work calls for a capture to begin.
pub open spec fn starts_capture(work: Seq<Effect>) -> bool {
    exists|i: int| 0 <= i < work.len() && (#[trigger] work[i]) is StartCapture
}

/// Whether work calls for a capture to be sealed.
pub open spec fn finishes_capture(work: Seq<Effect>) -> bool {
    exists|i: int| 0 <= i < work.len() && (#[trigger] work[i]) is FinishCapture
}

/// Whether work calls for a capture to be discarded.
pub open spec fn cancels_capture(work: Seq<Effect>) -> bool {
    exists|i: int| 0 <= i < work.len() && (#[trigger] work[i]) is CancelCapture
}

/// Whether work calls for a clip to be let go.
pub open spec fn releases_clip(work: Seq<Effect>) -> bool {
    exists|i: int| 0 <= i < work.len() && (#[trigger] work[i]) is ReleaseClip
}

/// Whether a piece of work names what the slot was and becomes, and the frame it is for: the one
/// that was waited for, or the present one where nothing was.
pub open spec fn work_fits(
    state: SlotState,
    after: SlotState,
    input: SlotInput,
    ctx: Ctx,
    effect: Effect,
) -> bool {
    match effect {
        Effect::StartCapture { at } => after == (SlotState::Recording {
            started_at: at,
            ends_at: None,
        }) && state == (SlotState::QueuedRecord { at }) && at.0 <= ctx.now.0,
        Effect::FinishCapture { clip, started_at, at } => after == (SlotState::Playing { clip })
            && clip == ctx.next_clip_id && state == (SlotState::Recording {
            started_at,
            ends_at: Some(at),
        }) && at.0 <= ctx.now.0,
        Effect::CancelCapture => state is Recording && after is Empty,
        Effect::StartPlayback { clip, at } => after == (SlotState::Playing { clip }) && (state == (
        SlotState::QueuedPlay { clip, at }) || (state matches SlotState::Recording {
            started_at: _,
            ends_at,
        } && ends_at == Some(at))) && at.0 <= ctx.now.0,
        Effect::StopPlayback { at } => if input is Advance {
            state matches SlotState::QueuedStop { clip, at: due } && due == at && at.0 <= ctx.now.0
                && after == (SlotState::Stopped { clip })
        } else {
            at == ctx.now
        },
        Effect::ReleaseClip { clip } => state.held() == Some(clip) && after is Empty,
    }
}

/// The work of a step tells how the slot changed, and nothing else. Playback starts where the slot
/// was silent and sounds, and stops where it sounded and is silent. Capture begins where the slot
/// was not capturing and is, is sealed where it gives a clip, and is discarded where it gives
/// none. A clip is let go where the slot held one and holds none. Every piece of it names the
/// clip and the frame.
pub proof fn work_tells_the_change(state: SlotState, input: SlotInput, ctx: Ctx)
    ensures
        ({
            let (after, work) = stepped(state, input, ctx);
            &&& starts_playback(work) <==> !state.sounding() && after.sounding()
            &&& stops_playback(work) <==> state.sounding() && !after.sounding()
            &&& starts_capture(work) <==> !(state is Recording) && after is Recording
            &&& finishes_capture(work) <==> state is Recording && after.held() is Some
            &&& cancels_capture(work) <==> state is Recording && after is Empty
            &&& releases_clip(work) <==> state.held() is Some && after.held() is None
            &&& forall|i: int|
                0 <= i < work.len() ==> work_fits(state, after, input, ctx, #[trigger] work[i])
        }),
{
    let (after, work) = stepped(state, input, ctx);
    assert(work.len() <= 2);
    if work.len() > 0 {
        assert(work_fits(state, after, input, ctx, work[0]));
    }
    if work.len() > 1 {
        assert(work_fits(state, after, input, ctx, work[1]));
    }
}

/// What waits fires on the frame it waits for, not before: a slot with nothing due stays as it is,
/// and a slot with something due has nothing waiting afterwards.
pub proof fn nothing_fires_early(state: SlotState, ctx: Ctx)
    ensures
        match due(state) {
            Some(at) => if ctx.now.0 < at.0 {
                advanced(state, ctx).0 == state
            } else {
                !advanced(state, ctx).0.pending()
            },
            None => advanced(state, ctx).0 == state && !state.pending(),
        },
        due(state) is Some <==> state.pending(),
{
}

/// A pad goes round: pressed while empty it records from the next bar line, pressed again it plays
/// what it recorded from the line it was rounded to, pressed again it falls silent on the next
/// line, and pressed again it plays the same clip.
pub proof fn a_pad_goes_round(state: SlotState, press: Ctx, due_at: Ctx)
    requires
        !state.pending(),
        due(pressed(state, press)) matches Some(at) ==> at.0 <= due_at.now.0,
    ensures
        ({
            let after = advanced(pressed(state, press), due_at).0;
            &&& state is Empty ==> after is Recording
            &&& state is Recording ==> after == (SlotState::Playing { clip: due_at.next_clip_id })
            &&& state matches SlotState::Playing { clip } ==> after == (SlotState::Stopped { clip })
            &&& state matches SlotState::Stopped { clip } ==> after == (SlotState::Playing { clip })
        }),
{
}

} // verus!
