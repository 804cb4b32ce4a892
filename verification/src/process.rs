//! Rendering a block: what is due fires, every pad plays, the input is captured, the click
//! sounds and the mix is limited, in that order.
//!
//! The samples are made by a [`Mixer`]. What it is told, and when, is decided here.

use vstd::prelude::*;

use crate::click::Blip;
use crate::engine::{target_gain, Engine, Voice};
use crate::event::{grown, since, since_adds, since_push, Event, EventSink};
use crate::grid::cut_offset;
use crate::ids::{SlotAddr, PAD_COUNT};
use crate::mixer::{Mixer, Score, Sound, Stretch};
use crate::promises::{a_run_moves_by_its_length, beginning_moves_back, starting_keeps_place};
use crate::time::Frames;
use crate::transport::{
    begins_block, finishes_run, reports_clock, starts_run, EngineView, Run,
};

verus! {

/// A mixer, with the score of everything it was told.
#[verifier::reject_recursive_types(S)]
pub struct Desk<S, M> {
    mixer: M,
    score: Score<S>,
}

impl<S, M> Desk<S, M> {
    /// Everything the mixer was told so far, in order.
    pub closed spec fn told(&self) -> Seq<Sound<S>> {
        self.score@
    }

    /// A mixer that was told nothing yet.
    pub fn new(mixer: M) -> (r: Self)
        ensures
            r.told() == Seq::<Sound<S>>::empty(),
    {
        Desk { mixer, score: Score::new() }
    }
}

/// What a pad plays over a run.
pub open spec fn pad_sound<S>(v: EngineView<S>, place: int, offset: int, frames: int) -> Sound<S> {
    let addr = SlotAddr::at(place);
    Sound::Pad {
        addr,
        target: target_gain(v, addr),
        clip: v.audio.clips[place],
        anchor: match v.audio.anchors[place] {
            Some(anchor) => anchor,
            None => match v.audio.clips[place] {
                Some(clip) => Frames(clip.recorded_at as u64),
                None => Frames(0),
            },
        },
        pickup: Frames(
            cut_offset(
                v.grid.bar(),
                v.audio.pickups[addr.track.num()] as int,
                v.grid.beats(),
            ) as u64,
        ),
        position: v.position,
        declick: v.declick,
        offset,
        frames,
    }
}

/// The blip that sounds over a run.
pub open spec fn blip_sound<S>(v: EngineView<S>, offset: int, frames: int) -> Sound<S> {
    Sound::Blip {
        blip: Blip {
            frames: v.click.sounding(frames) as usize,
            remaining: v.click.left(),
            length: v.click.whole(),
            level: v.click.peak(),
        },
        offset,
        frames,
    }
}

/// What a mixer is told over a run: the blip that starts with it, every pad in order, and what
/// is left of a blip.
pub open spec fn run_sounds<S>(v: EngineView<S>, run: Run, offset: int) -> Seq<Sound<S>> {
    struck(run) + Seq::new(64, |place: int| pad_sound(v, place, offset, run.frames as int)) + seq![
        blip_sound(v, offset, run.frames as int),
    ]
}

/// The blip that starts with a run, if one does.
pub open spec fn struck<S>(run: Run) -> Seq<Sound<S>> {
    match run.tone {
        Some(tone) => seq![Sound::Strike(tone)],
        None => Seq::empty(),
    }
}

/// What a block has come to: the engine, how far into the block, what was reported and what the
/// mixer was told.
#[verifier::ext_equal]
pub struct Rendered<S> {
    /// The engine.
    pub engine: EngineView<S>,
    /// Frames of the block that are done.
    pub done: int,
    /// What was reported.
    pub events: Seq<Event>,
    /// What the mixer was told.
    pub sounds: Seq<Sound<S>>,
}

/// One run of a block of so many frames.
pub open spec fn runs_on<S>(
    from: Rendered<S>,
    input: Seq<S>,
    total: int,
    to: Rendered<S>,
) -> bool {
    exists|mid: EngineView<S>, first: Seq<Event>, second: Seq<Event>, run: Run|
        #![trigger starts_run(from.engine, total - from.done, mid, first, run), finishes_run(mid, input, from.done, run.frames as int, to.engine, second)]
        starts_run(from.engine, total - from.done, mid, first, run) && finishes_run(
            mid,
            input,
            from.done,
            run.frames as int,
            to.engine,
            second,
        ) && to.done == from.done + run.frames && to.events == from.events + first + second
            && to.sounds == from.sounds + run_sounds(mid, run, from.done)
}

/// So many runs of a block.
pub open spec fn runs<S>(
    from: Rendered<S>,
    input: Seq<S>,
    total: int,
    count: int,
    to: Rendered<S>,
) -> bool
    decreases count,
{
    if count <= 0 {
        to == from
    } else {
        exists|mid: Rendered<S>| #[trigger]
            runs_on(mid, input, total, to) && runs(from, input, total, count - 1, mid)
    }
}

/// The report of samples that had to be held at full scale, if any had.
pub open spec fn clipped(held: u32) -> Seq<Event> {
    if held > 0 {
        seq![Event::Clipped { samples: held }]
    } else {
        Seq::empty()
    }
}

/// A block has begun: what the engine is, what was reported and what the mixer was told.
pub open spec fn opened<S>(begun: EngineView<S>, faded: bool, events: Seq<Event>) -> Rendered<S> {
    Rendered {
        engine: EngineView { silenced: false, ..begun },
        done: 0,
        events,
        sounds: if begun.silenced {
            seq![Sound::Clear, Sound::Faded(faded), Sound::Silence]
        } else {
            seq![Sound::Clear, Sound::Faded(faded)]
        },
    }
}

/// A block of so many frames: it begins, and unless the transport is frozen it runs to its end,
/// is limited, and the clock is reported. Whether the mix had faded and how many samples had to be
/// held is what the mixer answered.
pub open spec fn processes<S>(
    v: EngineView<S>,
    faded: bool,
    input: Seq<S>,
    frames: int,
    held: u32,
    to: Rendered<S>,
) -> bool {
    let input_frames = input.len() as int / v.capture_channels;
    exists|begun: EngineView<S>, first: Seq<Event>| #[trigger]
        begins_block(v, faded, frames, input_frames, begun, first) && if begun.paused {
            to == opened(begun, faded, first)
        } else {
            runs_out(opened(begun, faded, first), input, frames, held, to)
        }
}

/// A block that has begun runs to its end.
pub open spec fn runs_out<S>(
    from: Rendered<S>,
    input: Seq<S>,
    frames: int,
    held: u32,
    to: Rendered<S>,
) -> bool {
    exists|count: int, mid: Rendered<S>, last: Seq<Event>|
        #![trigger runs(from, input, frames, count, mid), reports_clock(mid.engine, to.engine, last)]
        runs(from, input, frames, count, mid) && mid.done == frames && reports_clock(
            mid.engine,
            to.engine,
            last,
        ) && to.done == frames && to.events == mid.events + clipped(held) + last && to.sounds
            == mid.sounds.push(Sound::Limit(held))
}

impl<S: Copy> Engine<S> {
    /// Tells the mixer what every pad plays over a run, in order.
    fn play_pads<M: Mixer<S>>(&self, stretch: Stretch, desk: &mut Desk<S, M>, out: &mut [S])
        requires
            self.wf(),
            stretch.position == self@.position,
            stretch.declick == self@.declick,
        ensures
            final(desk).told() == old(desk).told() + Seq::new(
                64,
                |place: int|
                    pad_sound(self@, place, stretch.offset as int, stretch.frames as int),
            ),
    {
        let ghost offset = stretch.offset as int;
        let ghost frames = stretch.frames as int;
        let ghost all = Seq::new(64, |place: int| pad_sound(self@, place, offset, frames));
        let mut place: usize = 0;
        assert(desk.told() =~= old(desk).told() + all.take(0));
        while place < PAD_COUNT
            invariant
                self.wf(),
                place <= 64,
                stretch.position == self@.position,
                stretch.declick == self@.declick,
                offset == stretch.offset,
                frames == stretch.frames,
                all == Seq::new(64, |place: int| pad_sound(self@, place, offset, frames)),
                desk.told() == old(desk).told() + all.take(place as int),
            decreases 64 - place,
        {
            let addr: SlotAddr = SlotAddr::of_index(place);
            let voice: Voice<'_, S> = self.voice(addr);
            desk.mixer.pad(&mut desk.score, addr, &voice, stretch, out);
            proof {
                assert(all.take(place + 1) =~= all.take(place as int).push(all[place as int]));
                assert(desk.told().last() == all[place as int]);
                assert(desk.told() =~= old(desk).told() + all.take(place + 1));
            }
            place += 1;
        }
        assert(all.take(64) =~= all);
    }

    /// Renders one block.
    ///
    /// `input` may be short, in which case the missing frames are captured as silence and
    /// reported. The transport must not run out of frames to count within the block.
    pub fn process<M: Mixer<S>, E: EventSink>(
        &mut self,
        input: &[S],
        output: &mut [S],
        desk: &mut Desk<S, M>,
        sink: &mut E,
    )
        requires
            old(self).wf(),
            old(self)@.position.0 + old(output)@.len() + u32::MAX <= u64::MAX,
        ensures
            final(self).wf(),
            final(self).crowded() >= old(self).crowded(),
            final(self).parked().len() > 0 ==> final(self).crowded() > old(self).crowded(),
            grown(old(sink).log(), final(sink).log()),
            exists|faded: bool, held: u32, to: Rendered<S>| #[trigger]
                processes(
                    old(self)@,
                    faded,
                    input@,
                    old(output)@.len() as int / old(self)@.channels,
                    held,
                    to,
                ) && to.engine == final(self)@ && to.events == since(
                    old(sink).log(),
                    final(sink).log(),
                ) && final(desk).told() == old(desk).told() + to.sounds,
    {
        let ghost v = self@;
        let ghost log = sink.log();
        let ghost heard = desk.told();
        proof {
            self.parts_agree();
        }
        let channels: usize = self.channels();
        let size: usize = output.len();
        let frames: usize = size / channels;
        let input_frames: usize = input.len() / self.capture_channels();
        proof {
            assert(frames <= size) by (nonlinear_arith)
                requires
                    frames == size / channels,
                    channels > 0,
            ;
            since_push(log, Event::TempoRejected);
        }
        desk.mixer.clear(&mut desk.score, output);
        let faded: bool = desk.mixer.is_faded(&mut desk.score);
        let running: bool = self.begin_block(faded, frames, input_frames, sink);
        let ghost begun = self@;
        let ghost first = since(log, sink.log());
        proof {
            beginning_moves_back(
                v,
                faded,
                frames as int,
                input_frames as int,
                begun,
                first,
            );
        }
        if self.take_silenced() {
            desk.mixer.silence(&mut desk.score);
        }
        let ghost from = opened(begun, faded, first);
        assert(desk.told() =~= heard + from.sounds);
        if !running {
            assert(processes(v, faded, input@, frames as int, 0, from));
            return ;
        }
        let mut done: usize = 0;
        let ghost mut count: int = 0;
        let ghost mut at = from;
        while done < frames
            invariant
                self.wf(),
                v == old(self)@,
                frames <= size,
                done <= frames,
                self.crowded() >= old(self).crowded(),
                self.parked().len() > 0 ==> self.crowded() > old(self).crowded(),
                begun.position.0 + size + u32::MAX <= u64::MAX,
                self@.position.0 == begun.position.0 + done,
                from == opened(begun, faded, first),
                grown(log, sink.log()),
                runs(from, input@, frames as int, count, at),
                at.engine == self@,
                at.done == done,
                at.events == since(log, sink.log()),
                desk.told() == heard + at.sounds,
                count >= 0,
            decreases frames - done,
        {
            let ghost before = sink.log();
            proof {
                self.parts_agree();
            }
            let run: Run = self.next_run(frames - done, sink);
            let ghost mid = self@;
            let ghost between = sink.log();
            if let Some(tone) = run.tone {
                desk.mixer.strike(&mut desk.score, tone);
            }
            assert(desk.told() =~= heard + at.sounds + struck(run));
            let stretch = Stretch {
                position: self.position(),
                declick: self.declick(),
                offset: done,
                frames: run.frames,
            };
            self.play_pads(stretch, desk, output);
            let blip: Blip = self.finish_run(input, done, run.frames, sink);
            desk.mixer.blip(&mut desk.score, blip, stretch, output);
            proof {
                since_adds(log, before, between);
                since_adds(log, between, sink.log());
                let one = since(before, between);
                let two = since(between, sink.log());
                a_run_moves_by_its_length(
                    mid,
                    input@,
                    done as int,
                    run.frames as int,
                    self@,
                    two,
                );
                let next = Rendered {
                    engine: self@,
                    done: done + run.frames,
                    events: at.events + one + two,
                    sounds: at.sounds + run_sounds(mid, run, done as int),
                };
                assert(desk.told() =~= heard + next.sounds);
                assert(starts_run(at.engine, frames - at.done, mid, one, run));
                assert(finishes_run(mid, input@, at.done, run.frames as int, next.engine, two));
                assert(runs_on(at, input@, frames as int, next));
                assert(runs(from, input@, frames as int, count + 1, next));
                count = count + 1;
                at = next;
            }
            done += run.frames;
        }
        let ghost before = sink.log();
        let held: u32 = desk.mixer.limit(&mut desk.score, output);
        proof {
            since_push(before, Event::Clipped { samples: held });
        }
        if held > 0 {
            sink.event(Event::Clipped { samples: held });
        }
        let ghost limited = sink.log();
        self.end_block(sink);
        proof {
            since_adds(log, before, limited);
            since_adds(log, limited, sink.log());
            let last = since(limited, sink.log());
            let to = Rendered {
                engine: self@,
                done: frames as int,
                events: at.events + clipped(held) + last,
                sounds: at.sounds.push(Sound::Limit(held)),
            };
            assert(desk.told() =~= heard + to.sounds);
            assert(reports_clock(at.engine, to.engine, last));
            assert(runs_out(from, input@, frames as int, held, to));
            assert(processes(v, faded, input@, frames as int, held, to));
        }
    }
}

/// Runs move the transport on by exactly what they render.
proof fn runs_move<S>(from: Rendered<S>, input: Seq<S>, total: int, count: int, to: Rendered<S>)
    requires
        runs(from, input, total, count, to),
        from.done == 0,
        0 <= total,
        from.engine.position.0 + total <= u64::MAX,
    ensures
        0 <= to.done <= total,
        to.engine.position.0 == from.engine.position.0 + to.done,
        to.engine.paused == from.engine.paused,
    decreases count,
{
    if count > 0 {
        let mid = choose|mid: Rendered<S>| #[trigger]
            runs_on(mid, input, total, to) && runs(from, input, total, count - 1, mid);
        runs_move(from, input, total, count - 1, mid);
        let (begun, first, second, run) = choose|
            begun: EngineView<S>,
            first: Seq<Event>,
            second: Seq<Event>,
            run: Run,
        |
            #![trigger starts_run(mid.engine, total - mid.done, begun, first, run), finishes_run(begun, input, mid.done, run.frames as int, to.engine, second)]
            starts_run(mid.engine, total - mid.done, begun, first, run) && finishes_run(
                begun,
                input,
                mid.done,
                run.frames as int,
                to.engine,
                second,
            ) && to.done == mid.done + run.frames;
        starting_keeps_place(
            mid.engine,
            EngineView { click: mid.engine.click, ..begun },
            first,
        );
        a_run_moves_by_its_length(
            begun,
            input,
            mid.done,
            run.frames as int,
            to.engine,
            second,
        );
    }
}

/// A block of a running transport moves it on by exactly the frames of the block, from where it
/// was or from the start if it was put back there. A frozen one holds its position.
pub proof fn a_block_moves_by_its_frames<S>(
    v: EngineView<S>,
    faded: bool,
    input: Seq<S>,
    frames: int,
    held: u32,
    to: Rendered<S>,
)
    requires
        processes(v, faded, input, frames, held, to),
        0 <= frames,
        v.position.0 + frames <= u64::MAX,
    ensures
        ({
            let moved = if to.engine.paused {
                0
            } else {
                frames
            };
            to.engine.position.0 == v.position.0 + moved || to.engine.position.0 == moved
        }),
{
    let input_frames = input.len() as int / v.capture_channels;
    let (begun, first) = choose|begun: EngineView<S>, first: Seq<Event>| #[trigger]
        begins_block(v, faded, frames, input_frames, begun, first) && if begun.paused {
            to == opened(begun, faded, first)
        } else {
            runs_out(opened(begun, faded, first), input, frames, held, to)
        };
    beginning_moves_back(v, faded, frames, input_frames, begun, first);
    if !begun.paused {
        let from = opened(begun, faded, first);
        let (count, mid, last) = choose|count: int, mid: Rendered<S>, last: Seq<Event>|
            #![trigger runs(from, input, frames, count, mid), reports_clock(mid.engine, to.engine, last)]
            runs(from, input, frames, count, mid) && mid.done == frames && reports_clock(
                mid.engine,
                to.engine,
                last,
            );
        runs_move(from, input, frames, count, mid);
    }
}

} // verus!
