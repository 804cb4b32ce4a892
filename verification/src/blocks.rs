//! Where a block ends makes no difference to what is played and captured.

use vstd::arithmetic::div_mod::{
    lemma_div_by_multiple, lemma_fundamental_div_mod, lemma_fundamental_div_mod_converse,
    lemma_mod_bound,
};
use vstd::prelude::*;

use crate::audio::{applied, captures, ran_on, worked, AudioView, Recording};
use crate::chain::{chain_extends, chain_keeps, chain_starts, chained, linked};
use crate::clip::{pick, picked, ClipView};
use crate::event::Event;
use crate::grid::{lines_bracket, next_cut_is_next};
use crate::ids::{none_held, places_are_addresses, SlotAddr};
use crate::process::pad_sound;
use crate::promises::a_block_may_end_anywhere;
use crate::session::{always, swept, Work};
use crate::slot::{advanced, Ctx, Effect, SlotInput, SlotState};
use crate::storage::{a_take_reads_back, capturing_keeps_quiet, capturing_keeps_shape};
use crate::time::Frames;
use crate::transport::{
    advances, beat_report, capture_step, captured_run, changes, clicks, cuts_short, delivered,
    finishes_run, on_new_beat, reaches_boundary, refusal_step, refusals_settle, run_end,
    starts_run, tail_step, tails_end, Capturing, EngineView, Run,
};

verus! {

/// Finishing a run in which no take runs out of storage and none comes to the end of its tail: the
/// input is captured, and the transport moves on.
pub open spec fn plays_through<S>(
    v: EngineView<S>,
    input: Seq<S>,
    offset: int,
    run: int,
    w: EngineView<S>,
    events: Seq<Event>,
) -> bool {
    &&& captured_run(v, input, offset, run, Capturing { audio: w.audio, tailed: 0, out: 0 }, events)
    &&& w == (EngineView {
        audio: w.audio,
        click: v.click.played(run),
        position: Frames((v.position.0 + run) as u64),
        ..v
    })
    &&& kept_up(v.audio, run, w.audio)
}

/// Whether every take of a run was given storage for the whole of it.
pub open spec fn kept_up<S>(v: AudioView<S>, run: int, w: AudioView<S>) -> bool {
    forall|place: int|
        0 <= place < 64 ==> ((#[trigger] v.recordings[place]) matches Some(recording)
            ==> !recording.starved && recording.tail_written + run <= u64::MAX
            && v.clips[place] is Some && w.recordings[place] == Some(
            ran_on(recording, run, run),
        ))
}

/// What a take holds after a run of which `backed` frames were given storage.
pub open spec fn took<S>(
    recording: Recording,
    before: ClipView<S>,
    after: ClipView<S>,
    captured: Seq<S>,
    src_channels: int,
    backed: int,
) -> bool {
    &&& after == (ClipView { buffer: after.buffer, ..before })
    &&& after.buffer.quiet == before.buffer.quiet
    &&& forall|at: int, channel: int|
        0 <= at && 0 <= channel < before.channels ==> holds_after(
            recording,
            before,
            #[trigger] after.buffer.at(at, channel),
            captured,
            src_channels,
            backed,
            at,
            channel,
        )
}

/// What a take holds at one frame and channel after a run: what arrived in the frames that were
/// given storage, with silence where nothing did, and what it held in those before.
pub open spec fn holds_after<S>(
    recording: Recording,
    before: ClipView<S>,
    sample: Option<S>,
    captured: Seq<S>,
    src_channels: int,
    backed: int,
    at: int,
    channel: int,
) -> bool {
    let from = recording.frames as int;
    &&& from <= at < from + backed ==> sample == Some(
        if at - from < captured.len() as int / src_channels {
            picked(captured, src_channels, recording.input.picked())(at - from, channel)
        } else {
            before.buffer.quiet
        },
    )
    &&& at < from && before.buffer.at(at, channel) is Some ==> sample == before.buffer.at(
        at,
        channel,
    )
}

/// What became of one pad over a run.
pub open spec fn pad_ran<S>(
    v: AudioView<S>,
    w: AudioView<S>,
    captured: Seq<S>,
    src_channels: int,
    run: int,
    place: int,
    backed: int,
) -> bool {
    match (v.recordings[place], v.clips[place]) {
        (None, clip) => w.recordings[place] is None && w.clips[place] == clip,
        (Some(recording), None) => w.clips[place] is None && w.recordings[place] == Some(
            ran_on(recording, run, backed),
        ),
        (Some(recording), Some(clip)) => w.recordings[place] == Some(
            ran_on(recording, run, backed),
        ) && 0 <= backed <= run && (backed > 0 ==> recording.frames + run <= u64::MAX)
            && w.clips[place] is Some && took(
            recording,
            clip,
            w.clips[place]->Some_0,
            captured,
            src_channels,
            backed,
        ),
    }
}

/// How far capturing a run has come.
pub open spec fn ran_to<S>(
    v: AudioView<S>,
    w: AudioView<S>,
    captured: Seq<S>,
    src_channels: int,
    run: int,
    to: int,
) -> bool {
    &&& w.wf()
    &&& w == (AudioView {
        clips: w.clips,
        recordings: w.recordings,
        pool: w.pool,
        asked: w.asked,
        ..v
    })
    &&& w.pool.channels == v.pool.channels
    &&& forall|place: int|
        to <= place < 64 ==> #[trigger] w.clips[place] == v.clips[place] && w.recordings[place]
            == v.recordings[place]
    &&& forall|place: int|
        0 <= place < to ==> #[trigger] ran(v, w, captured, src_channels, run, place)
}

/// Whether one pad went on over a run.
pub open spec fn ran<S>(
    v: AudioView<S>,
    w: AudioView<S>,
    captured: Seq<S>,
    src_channels: int,
    run: int,
    place: int,
) -> bool {
    exists|backed: int| pad_ran(v, w, captured, src_channels, run, place, backed)
}

/// Capturing a run leaves each pad with what arrived for it.
proof fn capturing_runs<S>(
    v: AudioView<S>,
    captured: Seq<S>,
    src_channels: int,
    run: int,
    mid: Capturing<S>,
    events: Seq<Event>,
)
    requires
        v.wf(),
        0 < src_channels,
        0 <= run,
        captured.len() as int / src_channels <= run,
        chained(
            capture_step(captured, src_channels, run),
            Capturing { audio: v, tailed: 0, out: 0 },
            64,
            mid,
            events,
        ),
    ensures
        ran_to(v, mid.audio, captured, src_channels, run, 64),
{
    let step = capture_step(captured, src_channels, run);
    assert forall|now: Capturing<S>, i: int, next: Capturing<S>, here: Seq<Event>|
        0 <= i < 64 && #[trigger] ran_to(v, now.audio, captured, src_channels, run, i)
            && #[trigger] step(now, i, next, here) implies ran_to(
        v,
        next.audio,
        captured,
        src_channels,
        run,
        i + 1,
    ) by {
        one_pad_runs(v, now, captured, src_channels, run, i, next, here);
    }
    chain_keeps(
        step,
        Capturing { audio: v, tailed: 0, out: 0 },
        64,
        mid,
        events,
        |now: Capturing<S>, i: int| ran_to(v, now.audio, captured, src_channels, run, i),
    );
}

/// Capturing a run for one pad leaves it with what arrived for it, and the others alone.
pub(crate) proof fn one_pad_runs<S>(
    v: AudioView<S>,
    now: Capturing<S>,
    captured: Seq<S>,
    src_channels: int,
    run: int,
    place: int,
    next: Capturing<S>,
    here: Seq<Event>,
)
    requires
        0 <= place < 64,
        v.wf(),
        0 < src_channels,
        0 <= run,
        captured.len() as int / src_channels <= run,
        ran_to(v, now.audio, captured, src_channels, run, place),
        capture_step(captured, src_channels, run)(now, place, next, here),
    ensures
        ran_to(v, next.audio, captured, src_channels, run, place + 1),
{
    let (alone, backed) = choose|alone: bool, backed: int|
        #[trigger] captures(
            now.audio,
            place,
            captured,
            src_channels,
            run,
            alone,
            next.audio,
            backed,
        );
    let from = now.audio;
    let to = next.audio;
    assert(from.clips[place] == v.clips[place]);
    assert(from.recordings[place] == v.recordings[place]);
    capturing_keeps_shape(from, place, captured, src_channels, run, alone, to, backed);
    assert(pad_ran(v, to, captured, src_channels, run, place, backed)) by {
        if v.recordings[place] is Some && v.clips[place] is Some {
            let recording = v.recordings[place]->Some_0;
            let before = v.clips[place]->Some_0;
            let after = to.clips[place]->Some_0;
            assert(before.wf());
            assert(to.clips[place] is Some);
            assert forall|at: int, channel: int|
                0 <= at && 0 <= channel < before.channels implies holds_after(
                recording,
                before,
                #[trigger] after.buffer.at(at, channel),
                captured,
                src_channels,
                backed,
                at,
                channel,
            ) by {
                assert(from.clips[place]->Some_0.channels == from.pool.channels);
                a_take_reads_back(
                    from,
                    place,
                    captured,
                    src_channels,
                    run,
                    alone,
                    to,
                    backed,
                    at,
                    channel,
                );
            }
            capturing_keeps_quiet(
                from,
                place,
                captured,
                src_channels,
                run,
                alone,
                to,
                backed,
            );
        }
    }
    assert forall|p: int| 0 <= p < place + 1 implies #[trigger] ran(
        v,
        to,
        captured,
        src_channels,
        run,
        p,
    ) by {
        if p < place {
            assert(ran(v, from, captured, src_channels, run, p));
            assert(to.clips[p] == from.clips[p] && to.recordings[p] == from.recordings[p]);
            let before = choose|before: int|
                pad_ran(v, from, captured, src_channels, run, p, before);
            assert(pad_ran(v, to, captured, src_channels, run, p, before));
        } else {
            assert(pad_ran(v, to, captured, src_channels, run, place, backed));
        }
    }
    assert(to =~= (AudioView {
        clips: to.clips,
        recordings: to.recordings,
        pool: to.pool,
        asked: to.asked,
        ..v
    }));
    assert forall|p: int| place + 1 <= p < 64 implies #[trigger] to.clips[p] == v.clips[p]
        && to.recordings[p] == v.recordings[p] by {
        assert(from.clips[p] == v.clips[p]);
    }
}

/// What arrived for a run is no more than the run.
pub(crate) proof fn delivered_fits<S>(input: Seq<S>, channels: int, offset: int, run: int)
    requires
        0 < channels,
        0 <= offset,
        0 <= run,
    ensures
        delivered(input, channels, offset, run).len() as int / channels <= run,
{
    let frames = input.len() as int / channels;
    lemma_fundamental_div_mod(input.len() as int, channels);
    lemma_mod_bound(input.len() as int, channels);
    if offset >= frames {
        lemma_div_by_multiple(0, channels);
    } else {
        let to = if frames - offset < run {
            frames
        } else {
            offset + run
        };
        assert(0 <= offset * channels <= to * channels <= frames * channels
            && to * channels - offset * channels == (to - offset) * channels) by (nonlinear_arith)
            requires
                0 <= offset <= to <= frames,
                0 < channels,
        ;
        assert(frames * channels <= input.len()) by (nonlinear_arith)
            requires
                input.len() == channels * frames + input.len() as int % channels,
                input.len() as int % channels >= 0,
        ;
        lemma_div_by_multiple(to - offset, channels);
    }
}

/// A frame of two stretches of input in a row is a frame of the first, or of the second.
pub(crate) proof fn frames_in_a_row<S>(
    first: Seq<S>,
    second: Seq<S>,
    channels: int,
    count: int,
    picks: Seq<u8>,
    frame: int,
    channel: int,
)
    requires
        0 < channels,
        0 <= count,
        first.len() == count * channels,
        picks.len() > 0,
        0 <= channel,
        0 <= frame,
    ensures
        (first + second).len() as int / channels == count + second.len() as int / channels,
        first.len() as int / channels == count,
        frame < count ==> picked(first + second, channels, picks)(frame, channel) == picked(
            first,
            channels,
            picks,
        )(frame, channel),
        count <= frame < count + second.len() as int / channels ==> picked(
            first + second,
            channels,
            picks,
        )(frame, channel) == picked(second, channels, picks)(frame - count, channel),
{
    let from = pick(picks, channels, channel);
    assert(0 <= from < channels);
    lemma_div_by_multiple(count, channels);
    lemma_fundamental_div_mod(second.len() as int, channels);
    lemma_mod_bound(second.len() as int, channels);
    let whole = second.len() as int / channels;
    let rest = second.len() as int % channels;
    assert(count * channels + second.len() == channels * (count + whole) + rest)
        by (nonlinear_arith)
        requires
            second.len() == channels * whole + rest,
    ;
    lemma_fundamental_div_mod_converse(
        (first + second).len() as int,
        channels,
        count + whole,
        rest,
    );
    if frame < count {
        assert(0 <= frame * channels + from < count * channels) by (nonlinear_arith)
            requires
                0 <= frame < count,
                0 <= from < channels,
        ;
    } else if frame < count + whole {
        assert(frame * channels + from - count * channels == (frame - count) * channels + from)
            by (nonlinear_arith);
        assert(0 <= (frame - count) * channels + from < second.len()) by (nonlinear_arith)
            requires
                0 <= frame - count < whole,
                0 <= from < channels,
                second.len() == channels * whole + rest,
                0 <= rest,
        ;
    }
}

/// A run in which nothing runs out is a run.
pub proof fn playing_through_is_a_run<S>(
    v: EngineView<S>,
    input: Seq<S>,
    offset: int,
    run: int,
    w: EngineView<S>,
    events: Seq<Event>,
)
    requires
        plays_through(v, input, offset, run, w, events),
    ensures
        finishes_run(v, input, offset, run, w, events),
{
    let mid = Capturing { audio: w.audio, tailed: 0, out: 0 };
    no_tail_ends(w.audio, 64);
    assert(tails_end(mid, w.audio));
    let none = Seq::<Event>::empty();
    assert(cuts_short(
        EngineView { audio: w.audio, ..v },
        mid.out,
        EngineView { click: v.click, position: v.position, ..w },
        none,
    ));
    assert(events + none =~= events);
    assert(captured_run(v, input, offset, run, mid, events));
}

/// Where no tail is complete, none ends.
proof fn no_tail_ends<S>(audio: AudioView<S>, to: int)
    requires
        0 <= to <= 64,
    ensures
        chained(tail_step(0), audio, to, audio, Seq::<Event>::empty()),
    decreases to,
{
    let step = tail_step::<S>(0);
    if to == 0 {
        chain_starts(step, audio);
    } else {
        no_tail_ends(audio, to - 1);
        none_held(to - 1);
        let none = Seq::<Event>::empty();
        assert(step(audio, to - 1, audio, none));
        chain_extends(step, audio, to - 1, audio, none, audio, none);
        assert(none + none =~= none);
    }
}

/// Whether a pad's clip is the same but for where its audio is stored.
pub open spec fn same_clip<S>(a: Option<ClipView<S>>, b: Option<ClipView<S>>) -> bool {
    match (a, b) {
        (Some(a), Some(b)) => a == (ClipView { buffer: a.buffer, ..b }),
        (None, None) => true,
        _ => false,
    }
}

/// Whether two takes hold the same audio in the frames before `to`, as far as a clip they were
/// captured into held any before `from`.
pub open spec fn same_audio<S>(
    before: ClipView<S>,
    a: ClipView<S>,
    b: ClipView<S>,
    from: int,
    to: int,
) -> bool {
    forall|at: int, channel: int|
        #![trigger a.buffer.at(at, channel)]
        #![trigger b.buffer.at(at, channel)]
        0 <= at < to && 0 <= channel < before.channels && (from <= at || before.buffer.at(
            at,
            channel,
        ) is Some) ==> a.buffer.at(at, channel) == b.buffer.at(at, channel)
}

/// One part of a run: the input of the block it lies in, where it begins in the block, and how
/// many frames it has.
pub struct Part<S> {
    /// The input of the block.
    pub input: Seq<S>,
    /// Where the part begins in the block.
    pub offset: int,
    /// How many frames it has.
    pub frames: int,
}

impl<S> Part<S> {
    /// The frames of the input that belong to the part.
    pub open spec fn captured(self, channels: int) -> Seq<S> {
        delivered(self.input, channels, self.offset, self.frames)
    }
}

/// Frames of all parts together.
pub open spec fn frames_of_all<S>(parts: Seq<Part<S>>) -> int
    decreases parts.len(),
{
    if parts.len() == 0 {
        0
    } else {
        frames_of_all(parts.drop_last()) + parts.last().frames
    }
}

/// The input of all parts together.
pub open spec fn input_of_all<S>(parts: Seq<Part<S>>, channels: int) -> Seq<S>
    decreases parts.len(),
{
    if parts.len() == 0 {
        Seq::empty()
    } else {
        input_of_all(parts.drop_last(), channels) + parts.last().captured(channels)
    }
}

/// Whether every part has frames, and all but the last were delivered whole.
pub open spec fn in_a_row<S>(parts: Seq<Part<S>>, channels: int) -> bool {
    &&& parts.len() > 0
    &&& forall|i: int|
        #![trigger parts[i]]
        0 <= i < parts.len() ==> 0 < parts[i].frames && 0 <= parts[i].offset && (i < parts.len() - 1
            ==> parts[i].captured(channels).len() == parts[i].frames * channels)
}

/// A part of a run after the first: the block it lies in starts it, and it is played.
pub open spec fn carries_on<S>(v: EngineView<S>, part: Part<S>, w: EngineView<S>) -> bool {
    exists|left: int, on: EngineView<S>, run: Run, fired: Seq<Event>, events: Seq<Event>|
        #![trigger starts_run(v, left, on, fired, run), plays_through(on, part.input, part.offset, part.frames, w, events)]
        starts_run(v, left, on, fired, run) && plays_through(
            on,
            part.input,
            part.offset,
            part.frames,
            w,
            events,
        )
}

/// A run that has started is played in parts, each in a block of its own or not.
pub open spec fn plays_in_parts<S>(v: EngineView<S>, parts: Seq<Part<S>>, w: EngineView<S>) -> bool
    decreases parts.len(),
{
    if parts.len() <= 1 {
        parts.len() == 1 && exists|events: Seq<Event>|
            plays_through(
                v,
                parts[0].input,
                parts[0].offset,
                parts[0].frames,
                w,
                events,
            )
    } else {
        exists|mid: EngineView<S>|
            plays_in_parts(v, parts.drop_last(), mid) && #[trigger] carries_on(
                mid,
                parts.last(),
                w,
            )
    }
}

/// What a stretch of a run leaves behind, whatever parts it was played in: the transport and the
/// click move on by its frames, each take holds what arrived for it, and nothing else changes.
pub open spec fn played<S>(v: EngineView<S>, captured: Seq<S>, frames: int, w: EngineView<S>) -> bool {
    &&& w == (EngineView {
        audio: AudioView {
            clips: w.audio.clips,
            recordings: w.audio.recordings,
            pool: w.audio.pool,
            asked: w.audio.asked,
            ..v.audio
        },
        click: v.click.played(frames),
        position: Frames((v.position.0 + frames) as u64),
        ..v
    })
    &&& w.audio.wf()
    &&& w.audio.pool.channels == v.audio.pool.channels
    &&& forall|place: int|
        0 <= place < 64 ==> #[trigger] pad_played(
            v.audio,
            captured,
            v.capture_channels,
            frames,
            w.audio,
            place,
        )
}

/// What a stretch of a run leaves one pad with.
pub open spec fn pad_played<S>(
    v: AudioView<S>,
    captured: Seq<S>,
    channels: int,
    frames: int,
    w: AudioView<S>,
    place: int,
) -> bool {
    match v.recordings[place] {
        None => w.recordings[place] is None && w.clips[place] == v.clips[place],
        Some(recording) => {
            &&& recording.frames + frames <= u64::MAX
            &&& v.clips[place] is Some
            &&& w.clips[place] is Some
            &&& w.recordings[place] == Some(ran_on(recording, frames, frames))
            &&& took(
                recording,
                v.clips[place]->Some_0,
                w.clips[place]->Some_0,
                captured,
                channels,
                frames,
            )
        },
    }
}

/// Inside a run nothing is due: a part of it after the first fires nothing, reports nothing and
/// starts no blip, and leaves the engine as it was.
pub proof fn nothing_due_inside<S>(
    v: EngineView<S>,
    a: int,
    mid: EngineView<S>,
    left: int,
    on: EngineView<S>,
    events: Seq<Event>,
    run: Run,
)
    requires
        v.wf(),
        0 < clicks(v),
        0 < a < run_end(v) - v.position.0,
        run_end(v) <= u64::MAX,
        mid == (EngineView {
            audio: mid.audio,
            click: v.click.played(a),
            position: Frames((v.position.0 + a) as u64),
            ..v
        }),
        starts_run(mid, left, on, events, run),
    ensures
        on == mid,
        events == Seq::<Event>::empty(),
        run.tone is None,
        forall|b: int| 0 <= b ==> #[trigger] mid.click.played(b) == v.click.played(a + b),
{
    let bare = EngineView { audio: v.audio, ..mid };
    a_block_may_end_anywhere(v, bare, a);
    assert(on =~= mid);
}

/// Playing one part of a run leaves behind what a stretch of its length does.
proof fn one_part_plays<S>(
    v: EngineView<S>,
    input: Seq<S>,
    offset: int,
    frames: int,
    w: EngineView<S>,
    events: Seq<Event>,
)
    requires
        v.audio.wf(),
        0 < v.capture_channels,
        0 < frames,
        0 <= offset,
        plays_through(v, input, offset, frames, w, events),
    ensures
        played(v, delivered(input, v.capture_channels, offset, frames), frames, w),
{
    let width = v.capture_channels;
    let captured = delivered(input, width, offset, frames);
    delivered_fits(input, width, offset, frames);
    capturing_runs(
        v.audio,
        captured,
        width,
        frames,
        Capturing { audio: w.audio, tailed: 0, out: 0 },
        events,
    );
    assert forall|place: int| 0 <= place < 64 implies #[trigger] pad_played(
        v.audio,
        captured,
        width,
        frames,
        w.audio,
        place,
    ) by {
        assert(v.audio.recordings[place] == v.audio.recordings[place]);
        assert(ran(v.audio, w.audio, captured, width, frames, place));
        let backed = choose|backed: int|
            pad_ran(v.audio, w.audio, captured, width, frames, place, backed);
        if v.audio.recordings[place] is Some {
            assert(backed == frames);
        }
    }
}

/// Two stretches in a row are one.
proof fn stretches_add_up<S>(
    v: EngineView<S>,
    first: Seq<S>,
    a: int,
    mid: EngineView<S>,
    second: Seq<S>,
    b: int,
    w: EngineView<S>,
)
    requires
        v.audio.wf(),
        0 < v.capture_channels,
        0 < a,
        0 < b,
        v.position.0 + a + b <= u64::MAX,
        first.len() == a * v.capture_channels,
        played(v, first, a, mid),
        played(mid, second, b, w),
        mid.click.played(b) == v.click.played(a + b),
    ensures
        played(v, first + second, a + b, w),
{
    let width = v.capture_channels;
    let all = first + second;
    assert forall|place: int| 0 <= place < 64 implies #[trigger] pad_played(
        v.audio,
        all,
        width,
        a + b,
        w.audio,
        place,
    ) by {
        assert(pad_played(v.audio, first, width, a, mid.audio, place));
        assert(pad_played(mid.audio, second, width, b, w.audio, place));
        if v.audio.recordings[place] is Some {
            let recording = v.audio.recordings[place]->Some_0;
            let next = mid.audio.recordings[place]->Some_0;
            let before = v.audio.clips[place]->Some_0;
            let middle = mid.audio.clips[place]->Some_0;
            let after = w.audio.clips[place]->Some_0;
            let picks = recording.input.picked();
            let from = recording.frames as int;
            assert(next.frames == from + a);
            assert(next.input == recording.input);
            assert forall|at: int, channel: int|
                0 <= at && 0 <= channel < before.channels implies holds_after(
                recording,
                before,
                #[trigger] after.buffer.at(at, channel),
                all,
                width,
                a + b,
                at,
                channel,
            ) by {
                let held = middle.buffer.at(at, channel);
                assert(holds_after(recording, before, held, first, width, a, at, channel));
                let holds = after.buffer.at(at, channel);
                assert(holds_after(next, middle, holds, second, width, b, at, channel));
                if from <= at {
                    frames_in_a_row(first, second, width, a, picks, at - from, channel);
                }
            }
        }
    }
}

/// Parts in a row are delivered whole up to the last.
proof fn parts_are_whole<S>(parts: Seq<Part<S>>, channels: int)
    requires
        parts.len() > 1,
        in_a_row(parts, channels),
    ensures
        in_a_row(parts.drop_last(), channels),
        0 < frames_of_all(parts.drop_last()),
        0 < parts.last().frames,
        0 <= parts.last().offset,
        input_of_all(parts.drop_last(), channels).len() == frames_of_all(parts.drop_last())
            * channels,
    decreases parts.len(),
{
    let early = parts.drop_last();
    assert forall|i: int|
        #![trigger early[i]]
        0 <= i < early.len() implies 0 < early[i].frames && 0 <= early[i].offset && (i < early.len()
        - 1 ==> early[i].captured(channels).len() == early[i].frames * channels) by {
        assert(parts[i] == early[i]);
    }
    assert(parts[parts.len() - 1] == parts.last());
    assert(parts[early.len() - 1] == early.last());
    if early.len() == 1 {
        assert(early.drop_last().len() == 0);
        assert(input_of_all(early.drop_last(), channels) =~= Seq::<S>::empty());
    } else {
        parts_are_whole(early, channels);
    }
    let n = frames_of_all(early.drop_last());
    let m = early.last().frames;
    assert((n + m) * channels == n * channels + m * channels) by (nonlinear_arith);
    if early.len() == 1 {
        assert(n == 0);
        assert(0 * channels == 0);
    }
}

/// What a run leaves behind does not depend on the parts it is played in: it is what a stretch of
/// all their frames leaves, given all their input.
pub proof fn parts_add_up<S>(v: EngineView<S>, parts: Seq<Part<S>>, w: EngineView<S>)
    requires
        v.wf(),
        0 < clicks(v),
        in_a_row(parts, v.capture_channels),
        frames_of_all(parts) <= run_end(v) - v.position.0,
        run_end(v) <= u64::MAX,
        plays_in_parts(v, parts, w),
    ensures
        played(v, input_of_all(parts, v.capture_channels), frames_of_all(parts), w),
    decreases parts.len(),
{
    let width = v.capture_channels;
    let last = parts.last();
    if parts.len() == 1 {
        let part = parts[0];
        let events = choose|events: Seq<Event>|
            plays_through(
                v,
                parts[0].input,
                parts[0].offset,
                parts[0].frames,
                w,
                events,
            );
        one_part_plays(v, part.input, part.offset, part.frames, w, events);
        assert(parts.drop_last().len() == 0);
        assert(input_of_all(parts.drop_last(), width) =~= Seq::<S>::empty());
        assert(input_of_all(parts, width) =~= part.captured(width));
        assert(frames_of_all(parts) == part.frames);
    } else {
        let early = parts.drop_last();
        let mid = choose|mid: EngineView<S>|
            plays_in_parts(v, parts.drop_last(), mid) && #[trigger] carries_on(
                mid,
                parts.last(),
                w,
            );
        parts_are_whole(parts, width);
        parts_add_up(v, early, mid);
        let a = frames_of_all(early);
        let (left, on, run, fired, events) = choose|
            left: int,
            on: EngineView<S>,
            run: Run,
            fired: Seq<Event>,
            events: Seq<Event>,
        |
            #![trigger starts_run(mid, left, on, fired, run), plays_through(on, last.input, last.offset, last.frames, w, events)]
            starts_run(mid, left, on, fired, run) && plays_through(
                on,
                last.input,
                last.offset,
                last.frames,
                w,
                events,
            );
        nothing_due_inside(v, a, mid, left, on, fired, run);
        one_part_plays(mid, last.input, last.offset, last.frames, w, events);
        stretches_add_up(
            v,
            input_of_all(early, width),
            a,
            mid,
            last.captured(width),
            last.frames,
            w,
        );
    }
}

/// Cutting the same frames of a run into other parts makes no difference: at the end of them the
/// transport, every pad, every take and everything that is heard are the same, and the takes hold
/// the same audio, frame for frame. Only how often it was asked who reads a take differs. That is so while no take runs out of storage or comes to the
/// end of its tail: where takes compete for the last of the storage, which of them gets it
/// depends on the cut.
pub proof fn a_run_may_be_cut_anywhere<S>(
    v: EngineView<S>,
    parts: Seq<Part<S>>,
    w: EngineView<S>,
    others: Seq<Part<S>>,
    u: EngineView<S>,
    place: int,
)
    requires
        v.wf(),
        0 < clicks(v),
        in_a_row(parts, v.capture_channels),
        in_a_row(others, v.capture_channels),
        frames_of_all(parts) == frames_of_all(others),
        input_of_all(parts, v.capture_channels) == input_of_all(others, v.capture_channels),
        frames_of_all(parts) <= run_end(v) - v.position.0,
        run_end(v) <= u64::MAX,
        plays_in_parts(v, parts, w),
        plays_in_parts(v, others, u),
        0 <= place < 64,
    ensures
        w == (EngineView {
            audio: AudioView {
                clips: w.audio.clips,
                pool: w.audio.pool,
                asked: w.audio.asked,
                ..u.audio
            },
            ..u
        }),
        same_clip(w.audio.clips[place], u.audio.clips[place]),
        match v.audio.recordings[place] {
            None => w.audio.clips[place] == u.audio.clips[place] && forall|offset: int, run: int|
                #[trigger] pad_sound(w, place, offset, run) == pad_sound(u, place, offset, run),
            Some(recording) => same_audio(
                v.audio.clips[place]->Some_0,
                w.audio.clips[place]->Some_0,
                u.audio.clips[place]->Some_0,
                recording.frames as int,
                recording.frames + frames_of_all(parts),
            ),
        },
{
    parts_add_up(v, parts, w);
    parts_add_up(v, others, u);
    let width = v.capture_channels;
    let captured = input_of_all(parts, width);
    let frames = frames_of_all(parts);
    assert forall|p: int| 0 <= p < 64 implies #[trigger] w.audio.recordings[p]
        == u.audio.recordings[p] by {
        assert(pad_played(v.audio, captured, width, frames, w.audio, p));
        assert(pad_played(v.audio, captured, width, frames, u.audio, p));
    }
    assert(w.audio.recordings =~= u.audio.recordings);
    assert(pad_played(v.audio, captured, width, frames, w.audio, place));
    assert(pad_played(v.audio, captured, width, frames, u.audio, place));
    if v.audio.recordings[place] is Some {
        let recording = v.audio.recordings[place]->Some_0;
        let before = v.audio.clips[place]->Some_0;
        let one = w.audio.clips[place]->Some_0;
        let other = u.audio.clips[place]->Some_0;
        let from = recording.frames as int;
        assert forall|at: int, channel: int|
            0 <= at < from + frames && 0 <= channel < before.channels && (from <= at
                || before.buffer.at(at, channel) is Some) implies #[trigger] one.buffer.at(
            at,
            channel,
        ) == #[trigger] other.buffer.at(at, channel) by {
            let x = one.buffer.at(at, channel);
            assert(holds_after(recording, before, x, captured, width, frames, at, channel));
            let y = other.buffer.at(at, channel);
            assert(holds_after(recording, before, y, captured, width, frames, at, channel));
        }
    }
}

/// Where nothing is being recorded, capturing a run changes nothing and reports nothing.
proof fn nothing_captured<S>(
    v: AudioView<S>,
    captured: Seq<S>,
    src_channels: int,
    run: int,
    to: int,
    mid: Capturing<S>,
    events: Seq<Event>,
)
    requires
        0 <= to <= 64,
        forall|place: int| 0 <= place < 64 ==> (#[trigger] v.recordings[place]) is None,
        chained(
            capture_step(captured, src_channels, run),
            Capturing { audio: v, tailed: 0, out: 0 },
            to,
            mid,
            events,
        ),
    ensures
        mid == (Capturing { audio: v, tailed: 0, out: 0 }),
        events == Seq::<Event>::empty(),
    decreases to,
{
    let step = capture_step(captured, src_channels, run);
    let from = Capturing { audio: v, tailed: 0, out: 0 };
    if to > 0 {
        let (now, before, here) = choose|
            now: Capturing<S>,
            before: Seq<Event>,
            here: Seq<Event>,
        |
            #[trigger] linked(now, before, here) && events == before + here && chained(
                step,
                from,
                to - 1,
                now,
                before,
            ) && step(now, to - 1, mid, here);
        nothing_captured(v, captured, src_channels, run, to - 1, now, before);
        assert(v.recordings[to - 1] is None);
        assert(before + here =~= Seq::<Event>::empty());
    }
}

/// Where no tail is complete, ending the complete ones changes nothing.
proof fn no_tail_ended<S>(from: AudioView<S>, to: int, audio: AudioView<S>, events: Seq<Event>)
    requires
        0 <= to <= 64,
        chained(tail_step(0), from, to, audio, events),
    ensures
        audio == from,
    decreases to,
{
    let step = tail_step::<S>(0);
    if to > 0 {
        let (now, before, here) = choose|
            now: AudioView<S>,
            before: Seq<Event>,
            here: Seq<Event>,
        |
            #[trigger] linked(now, before, here) && events == before + here && chained(
                step,
                from,
                to - 1,
                now,
                before,
            ) && step(now, to - 1, audio, here);
        no_tail_ended(from, to - 1, now, before);
        none_held(to - 1);
    }
}

/// Where nothing is being recorded, a run of any length only moves the transport and the click
/// on. What plays at a position is then the same whatever runs led up to it.
pub proof fn playback_only_moves_on<S>(
    v: EngineView<S>,
    input: Seq<S>,
    offset: int,
    run: int,
    w: EngineView<S>,
    events: Seq<Event>,
)
    requires
        forall|place: int| 0 <= place < 64 ==> (#[trigger] v.audio.recordings[place]) is None,
        finishes_run(v, input, offset, run, w, events),
    ensures
        w == (EngineView {
            click: v.click.played(run),
            position: Frames((v.position.0 + run) as u64),
            ..v
        }),
        events == Seq::<Event>::empty(),
{
    let (mid, audio, first, second) = choose|
        mid: Capturing<S>,
        audio: AudioView<S>,
        first: Seq<Event>,
        second: Seq<Event>,
    |
        #![trigger captured_run(v, input, offset, run, mid, first), tails_end(mid, audio), first + second]
        captured_run(v, input, offset, run, mid, first) && tails_end(mid, audio) && cuts_short(
            EngineView { audio, ..v },
            mid.out,
            EngineView { click: v.click, position: v.position, ..w },
            second,
        ) && events == first + second && w.click == v.click.played(run) && w.position == Frames(
            (v.position.0 + run) as u64,
        );
    nothing_captured(
        v.audio,
        delivered(input, v.capture_channels, offset, run),
        v.capture_channels,
        run,
        64,
        mid,
        first,
    );
    no_tail_ended(mid.audio, 64, audio, Seq::empty());
    assert(first + second =~= Seq::<Event>::empty());
}

/// Whether nothing is being recorded or about to be.
pub open spec fn only_plays<S>(v: EngineView<S>) -> bool {
    forall|place: int|
        0 <= place < 64 ==> (#[trigger] v.audio.recordings[place]) is None
            && !v.session[place].recording()
}

/// Whether work is on playback alone.
spec fn only_playback(work: Work) -> bool {
    forall|i: int| 0 <= i < work.len() ==> plays_alone(#[trigger] work[i])
}

/// Whether a piece of work is on the playback of some pad.
spec fn plays_alone(piece: (SlotAddr, Effect)) -> bool {
    0 <= piece.0.place() < 64 && (piece.1 is StartPlayback || piece.1 is StopPlayback)
}

/// Where nothing is about to be recorded, moving on calls for playback alone.
proof fn moving_on_only_plays(states: Seq<SlotState>, ctx: Ctx, to: int)
    requires
        0 <= to <= 64,
        forall|place: int| 0 <= place < 64 ==> !(#[trigger] states[place]).recording(),
    ensures
        only_playback(swept(states, always(SlotInput::Advance), ctx, 0, to)),
    decreases to,
{
    if to > 0 {
        moving_on_only_plays(states, ctx, to - 1);
        let before = swept(states, always(SlotInput::Advance), ctx, 0, to - 1);
        let all = swept(states, always(SlotInput::Advance), ctx, 0, to);
        assert(!states[to - 1].recording());
        places_are_addresses(SlotAddr::at(to - 1), to - 1);
        assert forall|i: int| 0 <= i < all.len() implies plays_alone(#[trigger] all[i]) by {
            if i < before.len() {
                assert(all[i] == before[i]);
            } else {
                let effects = advanced(states[to - 1], ctx).1;
                assert(all[i] == (SlotAddr::at(to - 1), effects[i - before.len()]));
            }
        }
    }
}

/// Playback is launched in one way, asks nobody anything and reports nothing.
proof fn playback_is_settled<S>(
    v: AudioView<S>,
    work: Work,
    w: AudioView<S>,
    events: Seq<Event>,
    u: AudioView<S>,
    others: Seq<Event>,
)
    requires
        v.anchors.len() == 64,
        only_playback(work),
        worked(v, work, w, events),
        worked(v, work, u, others),
    ensures
        w == u,
        events == Seq::<Event>::empty(),
        others == Seq::<Event>::empty(),
        w == (AudioView { anchors: w.anchors, ..v }),
        w.anchors.len() == v.anchors.len(),
    decreases work.len(),
{
    if work.len() > 0 {
        let (a, m, x) = choose|mid: AudioView<S>, count: int, alone: bool|
            #![trigger applied(mid, work.last().0, work.last().1, alone, w, events.skip(count))]
            0 <= count <= events.len() && worked(v, work.drop_last(), mid, events.take(count))
                && applied(mid, work.last().0, work.last().1, alone, w, events.skip(count));
        let (b, n, y) = choose|mid: AudioView<S>, count: int, alone: bool|
            #![trigger applied(mid, work.last().0, work.last().1, alone, u, others.skip(count))]
            0 <= count <= others.len() && worked(v, work.drop_last(), mid, others.take(count))
                && applied(mid, work.last().0, work.last().1, alone, u, others.skip(count));
        assert forall|i: int| 0 <= i < work.drop_last().len() implies plays_alone(
            #[trigger] work.drop_last()[i],
        ) by {
            assert(work[i] == work.drop_last()[i]);
        }
        playback_is_settled(v, work.drop_last(), a, events.take(m), b, others.take(n));
        assert(work[work.len() - 1] == work.last());
        assert(events =~= events.take(m) + events.skip(m));
        assert(others =~= others.take(n) + others.skip(n));
    }
}

/// Where nothing was refused, there is nothing to settle.
proof fn nothing_refused<S>(from: EngineView<S>, to: int, w: EngineView<S>, events: Seq<Event>)
    requires
        0 <= to <= 64,
        chained(refusal_step(0), from, to, w, events),
    ensures
        w == from,
        events == Seq::<Event>::empty(),
    decreases to,
{
    let step = refusal_step::<S>(0);
    if to > 0 {
        let (now, before, here) = choose|
            now: EngineView<S>,
            before: Seq<Event>,
            here: Seq<Event>,
        |
            #[trigger] linked(now, before, here) && events == before + here && chained(
                step,
                from,
                to - 1,
                now,
                before,
            ) && step(now, to - 1, w, here);
        nothing_refused(from, to - 1, now, before);
        none_held(to - 1);
        assert(before + here =~= Seq::<Event>::empty());
    }
}

/// What fires at a boundary where nothing is recorded.
proof fn boundary_is_settled<S>(
    v: EngineView<S>,
    w: EngineView<S>,
    events: Seq<Event>,
    u: EngineView<S>,
    others: Seq<Event>,
)
    requires
        v.wf(),
        only_plays(v),
        reaches_boundary(v, w, events),
        reaches_boundary(v, u, others),
    ensures
        w == u,
        events == others,
        w.wf(),
        only_plays(w),
        w.grid == v.grid,
        w.position == v.position,
        w.subdivision == v.subdivision,
        w.click == v.click,
{
    if on_new_beat(v) {
        let (a, a1, a2) = boundary_steps(v, w, events);
        let (b, b1, b2) = boundary_steps(v, u, others);
        let work = swept(v.session, always(SlotInput::Advance), v.moment(), 0, 64);
        assert forall|place: int| 0 <= place < 64 implies !(
        #[trigger] v.session[place]).recording() by {
            assert(v.audio.recordings[place] is None);
        }
        moving_on_only_plays(v.session, v.moment(), 64);
        playback_is_settled(v.audio, work, a.audio, a1, b.audio, b1);
        nothing_refused(
            EngineView { audio: AudioView { refused: 0, ..a.audio }, ..a },
            64,
            w,
            a2,
        );
        nothing_refused(
            EngineView { audio: AudioView { refused: 0, ..b.audio }, ..b },
            64,
            u,
            b2,
        );
        assert(w =~= a);
        assert(u =~= b);
        assert(w =~= u);
        assert forall|place: int| 0 <= place < 64 implies (
        #[trigger] w.audio.recordings[place]) is None && !w.session[place].recording() by {
            assert(v.audio.recordings[place] is None);
            assert(!v.session[place].recording());
        }
    }
}

/// The steps of a boundary.
proof fn boundary_steps<S>(v: EngineView<S>, w: EngineView<S>, events: Seq<Event>) -> (steps: (
    EngineView<S>,
    Seq<Event>,
    Seq<Event>,
))
    requires
        on_new_beat(v),
        reaches_boundary(v, w, events),
    ensures
        advances(v, steps.0, steps.1),
        refusals_settle(steps.0, w, steps.2),
        events == beat_report(v.grid, v.position.0 as int) + steps.1 + steps.2 + changes(
            v.session,
            w.session,
            64,
        ),
{
    choose|mid: EngineView<S>, first: Seq<Event>, second: Seq<Event>|
        #[trigger] advances(v, mid, first) && #[trigger] refusals_settle(mid, w, second)
            && events == beat_report(v.grid, v.position.0 as int) + first + second + changes(
            v.session,
            w.session,
            64,
        )
}

/// A run is started: what is due fires, and is reported.
pub open spec fn fires<S>(v: EngineView<S>, on: EngineView<S>, events: Seq<Event>) -> bool {
    exists|left: int, run: Run| #[trigger] starts_run(v, left, on, events, run)
}

/// What there is once everything due has fired, and what was reported.
pub open spec fn fired<S>(v: EngineView<S>) -> (EngineView<S>, Seq<Event>) {
    choose|made: (EngineView<S>, Seq<Event>)| #[trigger] fires(v, made.0, made.1)
}

/// Where nothing is recorded, what fires is settled.
proof fn firing_is_settled<S>(v: EngineView<S>, on: EngineView<S>, events: Seq<Event>)
    requires
        v.wf(),
        only_plays(v),
        fires(v, on, events),
    ensures
        fired(v) == (on, events),
        on.wf(),
        only_plays(on),
        on.grid == v.grid,
        on.position == v.position,
        on.subdivision == v.subdivision,
{
    let made = (on, events);
    assert(fires(v, made.0, made.1));
    let other = fired(v);
    assert(fires(v, other.0, other.1));
    boundary_is_settled(
        v,
        EngineView { click: v.click, ..on },
        events,
        EngineView { click: v.click, ..other.0 },
        other.1,
    );
    assert(on =~= other.0);
    let bare = EngineView { click: v.click, ..on };
    assert(bare.wf());
    assert forall|place: int| 0 <= place < 64 implies (
    #[trigger] on.audio.recordings[place]) is None && !on.session[place].recording() by {
        assert(bare.audio.recordings[place] is None);
    }
}

/// The engine with the transport and the click moved on, and nothing else.
pub open spec fn moved_on<S>(v: EngineView<S>, frames: int) -> EngineView<S> {
    EngineView {
        click: v.click.played(frames),
        position: Frames((v.position.0 + frames) as u64),
        ..v
    }
}

/// What the engine holds so many frames on while nothing is recorded, and what it reports on the
/// way: at each beat and click what is due fires, and in between the transport moves on.
pub open spec fn future<S>(v: EngineView<S>, frames: int) -> (EngineView<S>, Seq<Event>)
    decreases frames,
{
    let ahead = run_end(v) - v.position.0;
    if frames <= 0 || ahead <= 0 {
        (v, Seq::empty())
    } else if frames <= ahead {
        (moved_on(fired(v).0, frames), fired(v).1)
    } else {
        let rest = future(moved_on(fired(v).0, ahead), frames - ahead);
        (rest.0, fired(v).1 + rest.1)
    }
}

/// One run of so many frames: what is due fires, and the run is finished.
pub open spec fn one_run<S>(
    v: EngineView<S>,
    frames: int,
    w: EngineView<S>,
    events: Seq<Event>,
) -> bool {
    exists|
        left: int,
        on: EngineView<S>,
        run: Run,
        first: Seq<Event>,
        input: Seq<S>,
        offset: int,
        rest: Seq<Event>,
    |
        #![trigger starts_run(v, left, on, first, run), finishes_run(on, input, offset, frames, w, rest)]
        0 < left && starts_run(v, left, on, first, run) && frames == run.frames && finishes_run(
            on,
            input,
            offset,
            frames,
            w,
            rest,
        ) && events == first + rest
}

/// Runs in a row, of so many frames together, however they are cut.
pub open spec fn many_runs<S>(
    v: EngineView<S>,
    count: int,
    frames: int,
    w: EngineView<S>,
    events: Seq<Event>,
) -> bool
    decreases count,
{
    if count <= 0 {
        w == v && frames == 0 && events == Seq::<Event>::empty()
    } else {
        exists|mid: EngineView<S>, here: int, first: Seq<Event>, rest: Seq<Event>|
            #![trigger one_run(v, here, mid, first), first + rest]
            one_run(v, here, mid, first) && many_runs(mid, count - 1, frames - here, w, rest)
                && events == first + rest
    }
}

/// From inside a run the future is that of its beginning.
proof fn future_from_inside<S>(v: EngineView<S>, a: int, frames: int)
    requires
        v.wf(),
        only_plays(v),
        0 < clicks(v),
        0 < a <= frames,
        a <= run_end(v) - v.position.0,
        run_end(v) <= u64::MAX,
        exists|on: EngineView<S>, events: Seq<Event>| #[trigger] fires(v, on, events),
    ensures
        ({
            let rest = future(moved_on(fired(v).0, a), frames - a);
            future(v, frames) == (rest.0, fired(v).1 + rest.1)
        }),
{
    let (on, events) = choose|on: EngineView<S>, events: Seq<Event>| #[trigger]
        fires(v, on, events);
    firing_is_settled(v, on, events);
    let ahead = run_end(v) - v.position.0;
    let mid = moved_on(on, a);
    let none = Seq::<Event>::empty();
    assert(events + none =~= events);
    assert(run_end(on) == run_end(v));
    if frames > a && a < ahead {
        a_block_may_end_anywhere(on, mid, a);
        let run = Run { frames: 1, tone: None };
        assert(starts_run(mid, 1, mid, none, run));
        assert(fires(mid, mid, none));
        assert(mid.wf());
        assert(only_plays(mid)) by {
            assert forall|place: int| 0 <= place < 64 implies (
            #[trigger] mid.audio.recordings[place]) is None && !mid.session[place].recording() by {
                assert(on.audio.recordings[place] is None);
            }
        }
        firing_is_settled(mid, mid, none);
        assert(run_end(mid) == run_end(v));
        if frames <= ahead {
            assert(moved_on(mid, frames - a) == moved_on(on, frames));
        } else {
            assert(moved_on(mid, ahead - a) == moved_on(on, ahead));
            let rest = future(moved_on(on, ahead), frames - ahead);
            assert(none + rest.1 =~= rest.1);
        }
    }
}

/// While nothing is recorded, how the frames are cut into runs and blocks makes no difference,
/// across any number of beats: what the engine holds at the end, and everything it reports on the
/// way, is settled by where it began and how many frames there were. So a launch or a stop lands
/// on the frame it is scheduled for, whatever the blocks are.
pub proof fn playback_may_be_cut_anywhere<S>(
    v: EngineView<S>,
    count: int,
    frames: int,
    w: EngineView<S>,
    events: Seq<Event>,
)
    requires
        v.wf(),
        only_plays(v),
        0 < clicks(v),
        0 <= frames,
        v.position.0 + frames + v.grid.bar() <= u64::MAX,
        many_runs(v, count, frames, w, events),
    ensures
        (w, events) == future(v, frames),
    decreases count,
{
    if count > 0 {
        let (mid, here, first, rest) = choose|
            mid: EngineView<S>,
            here: int,
            first: Seq<Event>,
            rest: Seq<Event>,
        |
            #![trigger one_run(v, here, mid, first), first + rest]
            one_run(v, here, mid, first) && many_runs(mid, count - 1, frames - here, w, rest)
                && events == first + rest;
        let (left, on, run, due, input, offset, last) = choose|
            left: int,
            on: EngineView<S>,
            run: Run,
            due: Seq<Event>,
            input: Seq<S>,
            offset: int,
            last: Seq<Event>,
        |
            #![trigger starts_run(v, left, on, due, run), finishes_run(on, input, offset, here, mid, last)]
            0 < left && starts_run(v, left, on, due, run) && here == run.frames && finishes_run(
                on,
                input,
                offset,
                here,
                mid,
                last,
            ) && first == due + last;
        assert(fires(v, on, due));
        firing_is_settled(v, on, due);
        playback_only_moves_on(on, input, offset, here, mid, last);
        assert(due + last =~= due);
        assert(mid == moved_on(on, here));
        lines_bracket(v.grid, v.position.0 as int);
        next_cut_is_next(v.grid, v.position.0 as int, v.grid.beats(), 0);
        next_cut_is_next(v.grid, v.position.0 as int, clicks(v), 0);
        assert(0 < run_end(v) - v.position.0 <= v.grid.bar());
        assert(0 < here);
        runs_only_add(mid, count - 1, frames - here, w, rest);
        assert(only_plays(mid)) by {
            assert forall|place: int| 0 <= place < 64 implies (
            #[trigger] mid.audio.recordings[place]) is None && !mid.session[place].recording() by {
                assert(on.audio.recordings[place] is None);
            }
        }
        playback_may_be_cut_anywhere(mid, count - 1, frames - here, w, rest);
        future_from_inside(v, here, frames);
    }
}

/// Runs in a row have no fewer than no frames.
proof fn runs_only_add<S>(
    v: EngineView<S>,
    count: int,
    frames: int,
    w: EngineView<S>,
    events: Seq<Event>,
)
    requires
        many_runs(v, count, frames, w, events),
    ensures
        0 <= frames,
    decreases count,
{
    if count > 0 {
        let (mid, here, first, rest) = choose|
            mid: EngineView<S>,
            here: int,
            first: Seq<Event>,
            rest: Seq<Event>,
        |
            #![trigger one_run(v, here, mid, first), first + rest]
            one_run(v, here, mid, first) && many_runs(mid, count - 1, frames - here, w, rest)
                && events == first + rest;
        runs_only_add(mid, count - 1, frames - here, w, rest);
    }
}

} // verus!
