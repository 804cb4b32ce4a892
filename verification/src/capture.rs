//! The capture ring between the input and output callbacks.
//!
//! The input side maps and pushes; the output side pops and runs the engine. On one
//! device both callbacks share a hardware clock, so the ring level is stable and the
//! cushion is a fixed, known latency rather than drift.

use vstd::arithmetic::div_mod::*;
use vstd::prelude::*;

use crate::ids::INPUT_CHANNELS;
use crate::lane::{lane, Inbox, Outbox};

verus! {

/// Largest run of frames handled in one pass. Bounds the scratch buffers.
pub const MAX_BLOCK_FRAMES: usize = 8_192;

/// Maps device channels onto the capture channels the engine reads.
///
/// Capture is the device's own width, bounded by [`INPUT_CHANNELS`]. Every channel a
/// track might pick has to arrive.
#[derive(Debug, Clone, Copy, PartialEq, Eq, Structural)]
pub struct ChannelMap {
    device: usize,
    capture: usize,
}

/// The samples of the first channels of so many frames of a wider layout.
pub open spec fn narrowed<S>(src: Seq<S>, device: int, capture: int, frames: int) -> Seq<S> {
    Seq::new(
        (frames * capture) as nat,
        |i: int| src[i / capture * device + i % capture],
    )
}

impl ChannelMap {
    /// Capture is never wider than the device.
    #[verifier::type_invariant]
    pub closed spec fn wf(self) -> bool {
        self.capture <= self.device
    }

    /// Device channel count.
    pub closed spec fn of_device(self) -> int {
        self.device as int
    }

    /// Channel count the engine reads.
    pub closed spec fn of_capture(self) -> int {
        self.capture as int
    }

    /// Takes the first `capture` of the device's channels, bounded by what it has.
    pub fn new(device: usize, capture: usize) -> (r: Self)
        ensures
            r.of_device() == device,
            r.of_capture() == (if capture < device {
                capture
            } else {
                device
            }),
    {
        Self {
            device,
            capture: if capture < device {
                capture
            } else {
                device
            },
        }
    }

    /// A map carrying every channel the device offers, up to the ceiling.
    pub fn whole(device: usize) -> (r: Self)
        ensures
            r.of_device() == device,
            r.of_capture() == (if INPUT_CHANNELS < device {
                INPUT_CHANNELS
            } else {
                device
            }),
    {
        Self::new(device, INPUT_CHANNELS)
    }

    /// Device channel count.
    pub fn device(self) -> (r: usize)
        ensures
            r == self.of_device(),
    {
        self.device
    }

    /// Channel count the engine reads.
    pub fn capture(self) -> (r: usize)
        ensures
            r == self.of_capture(),
            self.of_capture() <= self.of_device(),
    {
        proof {
            use_type_invariant(&self);
        }
        self.capture
    }

    /// How many frames fit both layouts.
    pub open spec fn frames(self, src: int, dst: int) -> int {
        if self.of_device() == 0 || self.of_capture() == 0 {
            0
        } else if src / self.of_device() < dst / self.of_capture() {
            src / self.of_device()
        } else {
            dst / self.of_capture()
        }
    }

    /// Converts `src` from device layout into `dst` in capture layout.
    ///
    /// Returns the frames written, which is limited by the shorter of the two slices.
    pub fn map<S: Copy>(self, src: &[S], dst: &mut [S]) -> (r: usize)
        ensures
            r == self.frames(src@.len() as int, old(dst)@.len() as int),
            final(dst)@.len() == old(dst)@.len(),
            r * self.of_capture() <= old(dst)@.len(),
            final(dst)@.take(r * self.of_capture()) == narrowed(
                src@,
                self.of_device(),
                self.of_capture(),
                r as int,
            ),
            final(dst)@.skip(r * self.of_capture()) == old(dst)@.skip(r * self.of_capture()),
    {
        proof {
            use_type_invariant(&self);
        }
        if self.device == 0 || self.capture == 0 {
            proof {
                assert(0 * self.of_capture() == 0);
                assert(dst@.take(0) =~= narrowed(src@, self.of_device(), self.of_capture(), 0));
            }
            return 0;
        }
        let device: usize = self.device;
        let capture: usize = self.capture;
        let from: usize = src.len() / device;
        let to: usize = dst.len() / capture;
        let frames: usize = if from < to {
            from
        } else {
            to
        };
        proof {
            fits(src@.len() as int, device as int, frames as int);
            fits(dst@.len() as int, capture as int, frames as int);
        }
        let total: usize = frames * capture;
        let mut at: usize = 0;
        let mut frame: usize = 0;
        let mut channel: usize = 0;
        while at < total
            invariant
                0 < capture <= device,
                total == frames * capture,
                total <= dst@.len(),
                frames * device <= src@.len(),
                dst@.len() == old(dst)@.len(),
                at <= total,
                channel < capture,
                at == frame * capture + channel,
                forall|i: int|
                    0 <= i < dst@.len() ==> #[trigger] dst@[i] == (if i < at {
                        src@[i / (capture as int) * device + i % (capture as int)]
                    } else {
                        old(dst)@[i]
                    }),
            decreases total - at,
        {
            proof {
                place(frame as int, channel as int, frames as int, capture as int, device as int);
            }
            let len: usize = src.len();
            let sample: S = src[frame * device + channel];
            dst[at] = sample;
            at += 1;
            channel += 1;
            if channel == capture {
                channel = 0;
                frame += 1;
                assert(frame * capture == (frame - 1) * capture + capture) by (nonlinear_arith);
            }
        }
        proof {
            assert(dst@.take(total as int) =~= narrowed(
                src@,
                self.of_device(),
                self.of_capture(),
                frames as int,
            ));
            assert(dst@.skip(total as int) =~= old(dst)@.skip(total as int));
        }
        frames
    }
}

proof fn fits(len: int, channels: int, frames: int)
    requires
        0 <= len,
        0 < channels,
        0 <= frames <= len / channels,
    ensures
        0 <= frames * channels <= len,
{
    lemma_fundamental_div_mod(len, channels);
    lemma_mod_bound(len, channels);
    assert(0 <= frames * channels <= channels * (len / channels)) by (nonlinear_arith)
        requires
            0 <= frames <= len / channels,
            0 < channels,
    ;
}

proof fn place(frame: int, channel: int, frames: int, capture: int, device: int)
    requires
        0 <= frame,
        0 <= channel < capture <= device,
        frame * capture + channel < frames * capture,
    ensures
        frame < frames,
        0 <= frame * device,
        frame * device + channel < frames * device,
        (frame * capture + channel) / capture == frame,
        (frame * capture + channel) % capture == channel,
{
    assert(frame < frames) by (nonlinear_arith)
        requires
            frame * capture + channel < frames * capture,
            0 <= channel,
            0 < capture,
    ;
    assert(0 <= frame * device && frame * device + device <= frames * device) by (nonlinear_arith)
        requires
            0 <= frame,
            frame + 1 <= frames,
            0 < device,
    ;
    lemma_fundamental_div_mod_converse(frame * capture + channel, capture, frame, channel);
}

/// Where the last of the runs that so many frames are sent in begins.
pub open spec fn last_run(frames: int) -> int {
    (frames - 1) / 8_192 * 8_192
}

/// The first samples of a run of frames of a device buffer.
pub open spec fn run_part<S>(
    src: Seq<S>,
    device: int,
    capture: int,
    start: int,
    end: int,
    part: int,
) -> Seq<S> {
    narrowed(src.subrange(start * device, end * device), device, capture, end - start).take(part)
}

/// Sending so many frames of a device buffer in runs: of each run the first samples go, as many
/// as there is room for, and the frames of it that did not fit are dropped. `full` counts the
/// runs that there was found to be too little room for; every other one goes whole.
pub open spec fn sends<S>(
    src: Seq<S>,
    device: int,
    capture: int,
    frames: int,
    sent: Seq<S>,
    dropped: int,
    full: int,
) -> bool
    decreases frames,
{
    if frames <= 0 {
        sent.len() == 0 && dropped == 0 && full == 0
    } else {
        let whole = (frames - last_run(frames)) * capture;
        exists|before: Seq<S>, part: int|
            0 <= part <= whole && sent == #[trigger] (before + run_part(
                src,
                device,
                capture,
                last_run(frames),
                frames,
                part,
            )) && sends(
                src,
                device,
                capture,
                last_run(frames),
                before,
                dropped - (whole - part) / capture,
                if part < whole {
                    full - 1
                } else {
                    full
                },
            )
    }
}

/// The input side of the capture ring.
#[verifier::reject_recursive_types(S)]
pub struct CaptureWriter<S> {
    out: Outbox<S>,
    map: ChannelMap,
    scratch: Vec<S>,
    dropped: u64,
}

impl<S: Copy> CaptureWriter<S> {
    /// Everything that fitted so far, in order.
    pub closed spec fn view(&self) -> Seq<S> {
        self.out@
    }

    /// The map it goes by.
    pub closed spec fn mapping(&self) -> ChannelMap {
        self.map
    }

    /// Frames that did not fit so far.
    pub closed spec fn lost(&self) -> int {
        self.dropped as int
    }

    /// How often there was too little room for a run.
    pub closed spec fn full(&self) -> int {
        self.out.full()
    }

    /// How many samples the ring holds.
    pub closed spec fn limit(&self) -> int {
        self.out.limit()
    }

    /// The scratch buffer holds the largest run.
    pub closed spec fn wf(&self) -> bool {
        &&& self.map.of_capture() <= self.map.of_device()
        &&& self.scratch@.len() == 8_192 * self.map.of_capture()
    }

    /// Maps and pushes one device buffer.
    ///
    /// Returns the frames that did not fit, which happens when the output callback has
    /// stalled. How much fits rests with the output side; what does is what was captured.
    pub fn write(&mut self, device_samples: &[S]) -> (r: usize)
        requires
            old(self).wf(),
        ensures
            final(self).wf(),
            final(self).mapping() == old(self).mapping(),
            final(self).limit() == old(self).limit(),
            final(self).full() > old(self).full() ==> final(self)@.len() >= old(self).limit(),
            old(self)@.is_prefix_of(final(self)@),
            final(self).lost() == (if old(self).lost() + r <= u64::MAX {
                old(self).lost() + r
            } else {
                u64::MAX as int
            }),
            old(self).mapping().of_device() == 0 ==> r == 0 && final(self)@ == old(self)@,
            old(self).mapping().of_device() > 0 ==> r <= device_samples@.len() as int
                / old(self).mapping().of_device(),
            old(self).mapping().of_capture() > 0 ==> sends(
                device_samples@,
                old(self).mapping().of_device(),
                old(self).mapping().of_capture(),
                device_samples@.len() as int / old(self).mapping().of_device(),
                final(self)@.skip(old(self)@.len() as int),
                r as int,
                final(self).full() - old(self).full(),
            ),
    {
        let device: usize = self.map.device();
        let capture: usize = self.map.capture();
        if device == 0 || capture == 0 {
            return 0;
        }
        let len: usize = device_samples.len();
        let frames: usize = len / device;
        let mut done: usize = 0;
        let mut dropped: usize = 0;
        proof {
            fits(len as int, device as int, frames as int);
            assert(self@.skip(self@.len() as int) =~= Seq::empty());
        }
        while done < frames
            invariant
                self.wf(),
                device == self.map.of_device(),
                capture == self.map.of_capture(),
                0 < capture <= device,
                self.map == old(self).map,
                self.limit() == old(self).limit(),
                self.full() > old(self).full() ==> self@.len() >= old(self).limit(),
                self.dropped == old(self).dropped,
                len == device_samples@.len(),
                frames * device <= len,
                done <= frames,
                dropped <= done,
                done == frames || done % 8_192 == 0,
                old(self)@.is_prefix_of(self@),
                sends(
                    device_samples@,
                    device as int,
                    capture as int,
                    done as int,
                    self@.skip(old(self)@.len() as int),
                    dropped as int,
                    self.full() - old(self).full(),
                ),
            decreases frames - done,
        {
            let run: usize = if frames - done < MAX_BLOCK_FRAMES {
                frames - done
            } else {
                MAX_BLOCK_FRAMES
            };
            proof {
                run_bounds(done as int, run as int, frames as int, device as int, capture as int);
            }
            let src: &[S] = vstd::slice::slice_subrange(
                device_samples,
                done * device,
                (done + run) * device,
            );
            let ghost before = self@;
            let ghost earlier = self.full() - old(self).full();
            let mapped: usize = self.map.map(src, self.scratch.as_mut_slice());
            let samples: usize = run * capture;
            let pushed: usize = self.out.send_some(self.scratch.as_slice(), samples);
            proof {
                assert(mapped == run) by {
                    mapped_run(run as int, device as int, capture as int);
                }
                let taken = narrowed(src@, device as int, capture as int, run as int);
                assert(self.scratch@.take(samples as int) == taken);
                let base = old(self)@.len() as int;
                let sent = self@.skip(base);
                assert(self.scratch@.take(pushed as int) =~= taken.take(pushed as int));
                assert(sent =~= before.skip(base) + taken.take(pushed as int));
                assert(last_run(done + run) == done);
                let whole = (done + run - last_run(done + run)) * capture;
                assert(whole == samples);
                assert(run_part(
                    device_samples@,
                    device as int,
                    capture as int,
                    last_run(done + run),
                    done + run,
                    pushed as int,
                ) == taken.take(pushed as int));
                assert(sends(
                    device_samples@,
                    device as int,
                    capture as int,
                    last_run(done + run),
                    before.skip(base),
                    dropped as int,
                    earlier,
                ));
                assert(sent == before.skip(base) + run_part(
                    device_samples@,
                    device as int,
                    capture as int,
                    last_run(done + run),
                    done + run,
                    pushed as int,
                ));
                assert(self.full() - old(self).full() == (if pushed < whole {
                    earlier + 1
                } else {
                    earlier
                }));
                assert((whole - pushed) / (capture as int) == (samples - pushed) / (
                capture as int));
                assert(sends(
                    device_samples@,
                    device as int,
                    capture as int,
                    done + run,
                    sent,
                    dropped + (samples - pushed) / (capture as int),
                    self.full() - old(self).full(),
                ));
            }
            let rejected: usize = (samples - pushed) / capture;
            proof {
                rejected_bounds(samples as int, pushed as int, run as int, capture as int);
            }
            dropped += rejected;
            done += run;
        }
        self.dropped = self.dropped.saturating_add(dropped as u64);
        dropped
    }

    /// Frames dropped since the stream started.
    pub fn dropped(&self) -> (r: u64)
        ensures
            r == self.lost(),
    {
        self.dropped
    }
}

proof fn run_bounds(done: int, run: int, frames: int, device: int, capture: int)
    requires
        0 <= done,
        0 <= run <= 8_192,
        done + run <= frames,
        0 < capture <= device,
    ensures
        0 <= done * device <= (done + run) * device <= frames * device,
        (done + run) * device - done * device == run * device,
        0 <= run * capture <= 8_192 * capture,
        run * capture <= run * device,
{
    assert(0 <= done * device <= (done + run) * device <= frames * device && (done + run) * device
        - done * device == run * device && 0 <= run * capture <= 8_192 * capture && run * capture
        <= run * device) by (nonlinear_arith)
        requires
            0 <= done,
            0 <= run <= 8_192,
            done + run <= frames,
            0 < capture <= device,
    ;
}

proof fn mapped_run(run: int, device: int, capture: int)
    requires
        0 <= run <= 8_192,
        0 < capture <= device,
    ensures
        run * device / device == run,
        run <= 8_192 * capture / capture,
{
    lemma_div_by_multiple(run, device);
    lemma_div_by_multiple(8_192, capture);
}

proof fn rejected_bounds(samples: int, pushed: int, run: int, capture: int)
    requires
        samples == run * capture,
        0 <= pushed <= samples,
        0 < capture,
        0 <= run,
    ensures
        0 <= (samples - pushed) / capture <= run,
{
    lemma_div_is_ordered(samples - pushed, samples, capture);
    lemma_div_by_multiple(run, capture);
    lemma_div_pos_is_pos(samples - pushed, capture);
}

/// Samples a read takes, where so many are waiting and there is so much room: none until the
/// cushion has built up, else as many whole frames as there are and as fit.
pub open spec fn taken(primed: bool, cushion: int, width: int, waiting: int, room: int) -> int {
    let most = if room / width < waiting / width {
        room / width
    } else {
        waiting / width
    };
    if width <= 0 || !primed && waiting < cushion {
        0
    } else {
        most * width
    }
}

/// Samples a read takes, where so many are waiting and there is so much room.
pub fn samples_to_take(
    primed: bool,
    cushion: usize,
    channels: usize,
    waiting: usize,
    room: usize,
) -> (r: usize)
    ensures
        r == taken(primed, cushion as int, channels as int, waiting as int, room as int),
        r <= room,
        r <= waiting,
        channels > 0 ==> r as int % channels as int == 0,
{
    if channels == 0 || (!primed && waiting < cushion) {
        assert(channels > 0 ==> 0int % channels as int == 0);
        return 0;
    }
    let wanted: usize = room / channels;
    let ready: usize = waiting / channels;
    let frames: usize = if wanted < ready {
        wanted
    } else {
        ready
    };
    proof {
        fits(room as int, channels as int, frames as int);
        fits(waiting as int, channels as int, frames as int);
        lemma_mod_multiples_basic(frames as int, channels as int);
    }
    frames * channels
}

/// Whole frames among so many samples.
pub open spec fn whole_frames(samples: int, width: int) -> int {
    if width <= 0 {
        0
    } else {
        samples / width
    }
}

/// Whole frames among so many samples. There are none where a frame has no channels.
pub fn frames_of(samples: usize, channels: usize) -> (r: usize)
    ensures
        r == whole_frames(samples as int, channels as int),
{
    if channels == 0 {
        0
    } else {
        samples / channels
    }
}

/// The output side of the capture ring.
#[verifier::reject_recursive_types(S)]
pub struct CaptureReader<S> {
    inbox: Inbox<S>,
    channels: usize,
    cushion_samples: usize,
    primed: bool,
}

impl<S: Copy> CaptureReader<S> {
    /// Everything read so far, in order.
    pub closed spec fn view(&self) -> Seq<S> {
        self.inbox@
    }

    /// Channels of what it reads.
    pub closed spec fn width(&self) -> int {
        self.channels as int
    }

    /// Whether reads have started.
    pub closed spec fn started(&self) -> bool {
        self.primed
    }

    /// Samples that have to build up before reads start.
    pub closed spec fn cushion(&self) -> int {
        self.cushion_samples as int
    }

    /// How often fewer samples were found than were to be taken.
    pub closed spec fn empty(&self) -> int {
        self.inbox.empty()
    }

    /// How many samples the ring holds.
    pub closed spec fn limit(&self) -> int {
        self.inbox.limit()
    }

    /// Whether a read that found so many samples waiting took what it should. It takes nothing
    /// only where they are found to be gone by the time it takes them, which the input side never
    /// does.
    pub open spec fn takes(&self, waiting: usize, room: int, after: &Self, took: int) -> bool {
        &&& after.started() == (self.started() || self.width() > 0 && waiting >= self.cushion())
        &&& if after.empty() == self.empty() {
            took == taken(
                self.started(),
                self.cushion(),
                self.width(),
                waiting as int,
                room,
            )
        } else {
            after.empty() == self.empty() + 1 && took == 0
        }
    }

    /// Fills as much of `dst` as the ring holds, in whole frames.
    ///
    /// Returns zero until the cushion has built up. After that a short read means the
    /// device under-delivered. How much there is rests with the input side.
    pub fn read(&mut self, dst: &mut [S]) -> (r: usize)
        ensures
            final(self).width() == old(self).width(),
            r <= old(dst)@.len(),
            final(dst)@.len() == old(dst)@.len(),
            final(self)@ == old(self)@ + final(dst)@.take(r as int),
            final(dst)@.skip(r as int) == old(dst)@.skip(r as int),
            final(self).cushion() == old(self).cushion(),
            final(self).limit() == old(self).limit(),
            exists|waiting: usize| waiting <= old(self).limit() && #[trigger]
                old(self).takes(waiting, old(dst)@.len() as int, &*final(self), r as int),
            old(self).width() > 0 ==> r as int % old(self).width() == 0,
            r > 0 ==> final(self).started(),
    {
        let waiting: usize = self.inbox.waiting();
        let samples: usize = samples_to_take(
            self.primed,
            self.cushion_samples,
            self.channels,
            waiting,
            dst.len(),
        );
        if self.channels > 0 && waiting >= self.cushion_samples {
            self.primed = true;
        }
        proof {
            assert(old(self)@ + dst@.take(0) =~= old(self)@);
            assert(self.width() > 0 ==> 0int % self.width() == 0);
        }
        if self.inbox.take_exactly(dst, samples) {
            assert(old(self).takes(waiting, old(dst)@.len() as int, self, samples as int));
            samples
        } else {
            assert(old(self).takes(waiting, old(dst)@.len() as int, self, 0));
            0
        }
    }

    /// Whether the cushion has built up and reads have started.
    pub fn is_primed(&self) -> (r: bool)
        ensures
            r == self.started(),
    {
        self.primed
    }

    /// Frames that were waiting to be read just now: the whole ones among the samples that were,
    /// which rest with the input side.
    pub fn available_frames(&self) -> (r: usize)
        ensures
            exists|waiting: usize|
                waiting <= self.limit() && r == #[trigger] whole_frames(
                    waiting as int,
                    self.width(),
                ),
    {
        let waiting: usize = self.inbox.waiting();
        let frames: usize = frames_of(waiting, self.channels);
        assert(frames == whole_frames(waiting as int, self.width()));
        frames
    }
}

/// Samples a capture ring holds: what was asked for, but no less than the cushion and one full
/// block.
pub open spec fn ring_samples(capacity_frames: int, cushion_frames: int, capture: int) -> int {
    let least = cushion_frames + 4_096;
    let frames = if capacity_frames > least {
        capacity_frames
    } else {
        least
    };
    frames * (if capture < 1 {
        1
    } else {
        capture
    })
}

/// Builds a capture ring. `quiet` is the sample that is silence.
///
/// `capacity_frames` is rounded up to hold at least the cushion plus one full block.
pub fn capture_ring<S: Copy>(
    capacity_frames: usize,
    cushion_frames: usize,
    map: ChannelMap,
    quiet: S,
) -> (r: (CaptureWriter<S>, CaptureReader<S>))
    requires
        map.of_capture() <= 0x1_0000,
        capacity_frames * (if map.of_capture() < 1 {
            1
        } else {
            map.of_capture()
        }) <= 0x1000_0000,
        (cushion_frames + 4_096) * (if map.of_capture() < 1 {
            1
        } else {
            map.of_capture()
        }) <= 0x1000_0000,
    ensures
        r.0.wf(),
        r.0.mapping() == map,
        r.0.lost() == 0,
        r.0.full() == 0,
        r.0@.len() == 0,
        r.0.limit() == ring_samples(
            capacity_frames as int,
            cushion_frames as int,
            map.of_capture(),
        ),
        r.1.width() == map.of_capture(),
        r.1.cushion() == cushion_frames * map.of_capture(),
        !r.1.started(),
        r.1@.len() == 0,
        r.1.empty() == 0,
        r.1.limit() == r.0.limit(),
{
    let channels: usize = map.capture();
    let width: usize = if channels < 1 {
        1
    } else {
        channels
    };
    proof {
        assert(cushion_frames <= 0x1000_0000) by (nonlinear_arith)
            requires
                (cushion_frames + 4_096) * width <= 0x1000_0000,
                width >= 1,
        ;
        assert(cushion_frames * channels <= (cushion_frames + 4_096) * width) by (nonlinear_arith)
            requires
                0 <= channels <= width,
                0 <= cushion_frames,
        ;
        assert(0 <= cushion_frames * channels) by (nonlinear_arith)
            requires
                0 <= channels,
                0 <= cushion_frames,
        ;
    }
    let least: usize = cushion_frames + 4_096;
    let frames: usize = if capacity_frames < least {
        least
    } else {
        capacity_frames
    };
    let (out, inbox) = lane(frames * width);
    let size: usize = MAX_BLOCK_FRAMES * channels;
    let mut scratch: Vec<S> = Vec::with_capacity(size);
    while scratch.len() < size
        invariant
            scratch@.len() <= size,
        decreases size - scratch@.len(),
    {
        scratch.push(quiet);
    }
    (
        CaptureWriter { out, map, scratch, dropped: 0 },
        CaptureReader {
            inbox,
            channels,
            cushion_samples: cushion_frames * channels,
            primed: false,
        },
    )
}

/// The engine reads the first channels the device delivers, each on its own: frame by frame and
/// channel by channel nothing is moved.
pub proof fn narrowing_keeps_the_first_channels<S>(
    src: Seq<S>,
    device: int,
    capture: int,
    frames: int,
    frame: int,
    channel: int,
)
    requires
        0 < capture <= device,
        0 <= frame < frames,
        0 <= channel < capture,
    ensures
        narrowed(src, device, capture, frames).len() == frames * capture,
        narrowed(src, device, capture, frames)[frame * capture + channel] == src[frame * device
            + channel],
{
    lemma_fundamental_div_mod_converse(frame * capture + channel, capture, frame, channel);
    assert(0 <= frame * capture + channel < frames * capture) by (nonlinear_arith)
        requires
            0 <= frame < frames,
            0 <= channel < capture,
    ;
}

/// There is never less than no run that found too little room.
proof fn runs_without_room<S>(
    src: Seq<S>,
    device: int,
    capture: int,
    frames: int,
    sent: Seq<S>,
    dropped: int,
    full: int,
)
    requires
        sends(src, device, capture, frames, sent, dropped, full),
    ensures
        full >= 0,
    decreases frames,
{
    if frames > 0 {
        let whole = (frames - last_run(frames)) * capture;
        let (before, part) = choose|before: Seq<S>, part: int|
            0 <= part <= whole && sent == #[trigger] (before + run_part(
                src,
                device,
                capture,
                last_run(frames),
                frames,
                part,
            )) && sends(
                src,
                device,
                capture,
                last_run(frames),
                before,
                dropped - (whole - part) / capture,
                if part < whole {
                    full - 1
                } else {
                    full
                },
            );
        runs_without_room(
            src,
            device,
            capture,
            last_run(frames),
            before,
            dropped - (whole - part) / capture,
            if part < whole {
                full - 1
            } else {
                full
            },
        );
    }
}

/// Where there is room nothing is lost: every frame the device delivered arrives, in order, with
/// the channels the engine reads, and none is counted as dropped.
pub proof fn nothing_is_lost_while_there_is_room<S>(
    src: Seq<S>,
    device: int,
    capture: int,
    frames: int,
    sent: Seq<S>,
    dropped: int,
)
    requires
        0 < capture <= device,
        0 <= frames,
        frames * device <= src.len(),
        sends(src, device, capture, frames, sent, dropped, 0),
    ensures
        dropped == 0,
        sent == narrowed(src, device, capture, frames),
    decreases frames,
{
    let all = narrowed(src, device, capture, frames);
    if frames <= 0 {
        assert(frames * capture == 0) by (nonlinear_arith)
            requires
                frames == 0,
        ;
        assert(sent =~= all);
    } else {
        let last = last_run(frames);
        let whole = (frames - last) * capture;
        let (before, part) = choose|before: Seq<S>, part: int|
            0 <= part <= whole && sent == #[trigger] (before + run_part(
                src,
                device,
                capture,
                last,
                frames,
                part,
            )) && sends(
                src,
                device,
                capture,
                last,
                before,
                dropped - (whole - part) / capture,
                if part < whole {
                    -1
                } else {
                    0
                },
            );
        if part < whole {
            runs_without_room(
                src,
                device,
                capture,
                last,
                before,
                dropped - (whole - part) / capture,
                -1,
            );
        }
        lemma_div_basics(capture);
        assert(0 <= last < frames);
        assert(last * device <= frames * device && 0 <= last * device) by (nonlinear_arith)
            requires
                0 <= last < frames,
                0 < device,
        ;
        nothing_is_lost_while_there_is_room(src, device, capture, last, before, dropped);
        let here = src.subrange(last * device, frames * device);
        let piece = narrowed(here, device, capture, frames - last);
        assert(whole >= 0 && frames * capture == last * capture + whole && last * capture >= 0)
            by (nonlinear_arith)
            requires
                whole == (frames - last) * capture,
                0 <= last < frames,
                0 < capture,
        ;
        assert(piece.take(whole) =~= piece);
        assert forall|i: int| 0 <= i < all.len() implies sent[i] == all[i] by {
            if i < last * capture {
                assert(before[i] == all[i]);
            } else {
                let j = i - last * capture;
                lemma_fundamental_div_mod(j, capture);
                lemma_mod_bound(j, capture);
                let f = j / capture;
                let c = j % capture;
                lemma_div_pos_is_pos(j, capture);
                assert(capture * f == f * capture) by (nonlinear_arith);
                assert(i == (last + f) * capture + c) by (nonlinear_arith)
                    requires
                        i == last * capture + j,
                        j == f * capture + c,
                ;
                lemma_fundamental_div_mod_converse(i, capture, last + f, c);
                assert(f < frames - last) by (nonlinear_arith)
                    requires
                        f * capture + c < (frames - last) * capture,
                        0 <= c,
                        0 < capture,
                ;
                assert((last + f) * device == last * device + f * device && f * device + c
                    < frames * device - last * device && 0 <= f * device) by (nonlinear_arith)
                    requires
                        0 <= f < frames - last,
                        0 <= c < device,
                        0 <= last,
                ;
                assert(piece[j] == here[f * device + c]);
                assert(sent[i] == piece[j]);
            }
        }
        assert(sent =~= all);
    }
}

/// Reading waits for the cushion to build up, and from then on takes whole frames: as many as are
/// waiting, or as many as there is room for.
pub proof fn reading_waits_for_the_cushion(
    primed: bool,
    cushion: int,
    width: int,
    waiting: int,
    room: int,
)
    requires
        0 < width,
        0 <= waiting,
        0 <= room,
    ensures
        ({
            let took = taken(primed, cushion, width, waiting, room);
            &&& !primed && waiting < cushion ==> took == 0
            &&& 0 <= took <= waiting
            &&& took <= room
            &&& took % width == 0
            &&& primed || waiting >= cushion ==> waiting < took + width || room < took + width
        }),
{
    lemma_fundamental_div_mod(room, width);
    lemma_fundamental_div_mod(waiting, width);
    lemma_mod_bound(room, width);
    lemma_mod_bound(waiting, width);
    lemma_div_pos_is_pos(room, width);
    lemma_div_pos_is_pos(waiting, width);
    let most = if room / width < waiting / width {
        room / width
    } else {
        waiting / width
    };
    lemma_mod_multiples_basic(most, width);
    assert(0 <= most * width && most * width <= width * (room / width) && most * width <= width * (
    waiting / width)) by (nonlinear_arith)
        requires
            0 <= most <= room / width,
            most <= waiting / width,
            0 < width,
    ;
    assert(width * (room / width) == (room / width) * width) by (nonlinear_arith);
    assert(width * (waiting / width) == (waiting / width) * width) by (nonlinear_arith);
    assert(0int % width == 0) by {
        lemma_small_mod(0, width as nat);
    }
}

/// The ring always has room for the cushion and a block on top of it, and for what was asked for.
pub proof fn the_ring_holds_the_cushion(capacity: int, cushion: int, capture: int)
    requires
        0 <= cushion,
        0 < capture,
    ensures
        ring_samples(capacity, cushion, capture) >= (cushion + 4_096) * capture,
        ring_samples(capacity, cushion, capture) >= capacity * capture,
        ring_samples(capacity, cushion, capture) == capacity * capture || ring_samples(
            capacity,
            cushion,
            capture,
        ) == (cushion + 4_096) * capture,
{
    let least = cushion + 4_096;
    assert(capacity > least ==> capacity * capture >= least * capture) by (nonlinear_arith)
        requires
            0 < capture,
    ;
    assert(capacity <= least ==> capacity * capture <= least * capture) by (nonlinear_arith)
        requires
            0 < capture,
    ;
}

} // verus!
