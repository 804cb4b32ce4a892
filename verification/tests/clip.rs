use free_loop::clip::{segments_for, AudioBuffer, Clip, SegmentPool, SEGMENT_FRAMES};
use free_loop::pan::{pan_for_step, Pan, CENTRE_STEP, PAN_STEPS};
use free_loop::time::Frames;

/// A gain that travels in a straight line over a block.
#[derive(Debug, Clone, Copy, PartialEq)]
struct Ramp {
    start: f32,
    step: f32,
}

impl Ramp {
    const UNITY: Self = Self {
        start: 1.0,
        step: 0.0,
    };

    const fn constant(gain: f32) -> Self {
        Self {
            start: gain,
            step: 0.0,
        }
    }

    fn new(start: f32, end: f32, frames: usize) -> Self {
        if frames == 0 {
            return Self::constant(end);
        }
        Self {
            start,
            step: (end - start) / frames as f32,
        }
    }

    fn at(self, frame: usize) -> f32 {
        self.start + self.step * frame as f32
    }

    fn from(self, frames: usize) -> Self {
        Self {
            start: self.at(frames),
            step: self.step,
        }
    }
}

/// A pan that travels in a straight line over a block.
#[derive(Debug, Clone, Copy, PartialEq)]
struct PanRamp {
    left: Ramp,
    right: Ramp,
    width: Ramp,
}

impl PanRamp {
    fn constant(pan: Pan) -> Self {
        Self::new(pan, pan, 0)
    }

    fn new(start: Pan, end: Pan, frames: usize) -> Self {
        let ramp = |a: u32, b: u32| Ramp::new(f32::from_bits(a), f32::from_bits(b), frames);
        Self {
            left: ramp(start.left(), end.left()),
            right: ramp(start.right(), end.right()),
            width: ramp(start.width(), end.width()),
        }
    }
}

/// One frame of one channel, mixed at a gain.
fn at_gain(ramp: Ramp) -> impl Fn(usize, usize, usize, f32, f32, f32) -> f32 {
    move |start, position, _channel, before, own, _other| {
        before + own * ramp.from(start).at(position)
    }
}

/// One frame of one channel, mixed at a gain and a place across the stereo field. A last
/// channel with no partner plays as it was recorded.
fn at_pan(
    channels: usize,
    ramp: Ramp,
    pan: PanRamp,
) -> impl Fn(usize, usize, usize, f32, f32, f32) -> f32 {
    move |start, position, channel, before, own, other| {
        let gain = ramp.from(start).at(position);
        if channel % 2 == 0 && channel + 1 == channels {
            return before + own * gain;
        }
        let (l, r) = if channel % 2 == 0 {
            (own, other)
        } else {
            (other, own)
        };
        let mid = (l + r) * 0.5;
        let side = (l - r) * 0.5 * pan.width.from(start).at(position);
        if channel % 2 == 0 {
            before + (mid + side) * gain * pan.left.from(start).at(position)
        } else {
            before + (mid - side) * gain * pan.right.from(start).at(position)
        }
    }
}

const CH: usize = 2;

fn ramp(frames: usize, start: usize) -> Vec<f32> {
    (0..frames * CH)
        .map(|i| (start * CH + i) as f32)
        .collect::<Vec<_>>()
}

#[test]
fn mixing_at_a_ramp_scales_each_frame_by_its_own_gain() {
    let mut pool = SegmentPool::new(1, 1, 0.0);
    let mut buffer = AudioBuffer::new(1, 1, 0.0);
    buffer.write(0, &[1.0, 1.0, 1.0, 1.0], &mut pool);
    let clip = Clip::new(buffer, Frames(4), Frames(0), 1);

    let mut out = vec![0.0; 4];
    clip.mix_into(Frames(0), &mut out, &at_gain(Ramp::new(0.0, 1.0, 4)));
    assert_eq!(out, vec![0.0, 0.25, 0.5, 0.75]);
}

/// A two-frame stereo clip with different content on each channel.
fn lopsided() -> Clip<f32> {
    let mut pool = SegmentPool::new(1, CH, 0.0);
    let mut buffer = AudioBuffer::new(1, CH, 0.0);
    buffer.write(0, &[1.0, 0.0, 1.0, 0.0], &mut pool);
    Clip::new(buffer, Frames(2), Frames(0), CH)
}

#[test]
fn a_centred_pan_leaves_the_source_untouched() {
    let clip = lopsided();
    let mut out = vec![0.0; 2 * CH];
    clip.mix_pickup(
        Frames(0),
        Frames(0),
        &mut out,
        Frames::zero(),
        &at_pan(CH, Ramp::UNITY, PanRamp::constant(Pan::centre())),
    );
    assert_eq!(out, vec![1.0, 0.0, 1.0, 0.0], "left stays left");
}

#[test]
fn a_hard_pan_sums_both_channels_onto_the_side_it_lands_on() {
    let clip = lopsided();
    let mut out = vec![0.0; 2 * CH];
    let hard_right = PanRamp::constant(pan_for_step(6));
    clip.mix_pickup(
        Frames(0),
        Frames(0),
        &mut out,
        Frames::zero(),
        &at_pan(CH, Ramp::UNITY, hard_right),
    );

    assert_eq!(out[0], 0.0, "nothing is left on the left");
    // The source summed to mono is 0.5, at the far end of a constant-power sweep.
    let hard = 0.5 * std::f32::consts::SQRT_2;
    assert!((out[1] - hard).abs() < 1e-6, "got {}", out[1]);
}

#[test]
fn a_hard_pan_keeps_the_power_a_centred_one_had() {
    let mut pool = SegmentPool::new(1, CH, 0.0);
    let mut buffer = AudioBuffer::new(1, CH, 0.0);
    // The same signal on both channels, which is what a mono input records.
    buffer.write(0, &[1.0, 1.0], &mut pool);
    let clip = Clip::new(buffer, Frames(1), Frames(0), CH);

    let power = |step: u8| {
        let mut out = vec![0.0; CH];
        clip.mix_pickup(
            Frames(0),
            Frames(0),
            &mut out,
            Frames::zero(),
            &at_pan(CH, Ramp::UNITY, PanRamp::constant(pan_for_step(step))),
        );
        out[0].mul_add(out[0], out[1] * out[1])
    };

    let centre = power(CENTRE_STEP);
    assert_eq!(
        centre, 2.0,
        "a centred track plays as recorded on both sides"
    );
    for step in 0..u8::try_from(PAN_STEPS).unwrap() {
        assert!(
            (power(step) - centre).abs() < 1e-5,
            "step {step} changes level"
        );
    }
}

#[test]
fn a_pan_carries_across_every_stereo_pair_of_a_wider_output() {
    let wide = 4;
    let mut pool = SegmentPool::new(1, wide, 0.0);
    let mut buffer = AudioBuffer::new(1, wide, 0.0);
    buffer.write(0, &[1.0, 1.0, 1.0, 1.0], &mut pool);
    let clip = Clip::new(buffer, Frames(1), Frames(0), wide);

    let mut out = vec![0.0; wide];
    clip.mix_pickup(
        Frames(0),
        Frames(0),
        &mut out,
        Frames::zero(),
        &at_pan(wide, Ramp::UNITY, PanRamp::constant(pan_for_step(6))),
    );

    assert_eq!(out[0], 0.0, "the first pair moved over");
    assert!(out[1] > 0.0);
    assert_eq!(out[2], 0.0, "and so did the second");
    assert!(out[3] > 0.0);
}

#[test]
fn a_mono_output_has_nowhere_to_pan_and_keeps_its_level() {
    let mut pool = SegmentPool::new(1, 1, 0.0);
    let mut buffer = AudioBuffer::new(1, 1, 0.0);
    buffer.write(0, &[1.0], &mut pool);
    let clip = Clip::new(buffer, Frames(1), Frames(0), 1);

    let mut out = vec![0.0; 1];
    clip.mix_pickup(
        Frames(0),
        Frames(0),
        &mut out,
        Frames::zero(),
        &at_pan(1, Ramp::UNITY, PanRamp::constant(pan_for_step(0))),
    );
    assert_eq!(out[0], 1.0, "one channel is played as it was recorded");
}

#[test]
fn a_moving_pan_travels_across_the_block() {
    let mut pool = SegmentPool::new(1, CH, 0.0);
    let mut buffer = AudioBuffer::new(1, CH, 0.0);
    buffer.write(0, &[1.0, 1.0, 1.0, 1.0], &mut pool);
    let clip = Clip::new(buffer, Frames(2), Frames(0), CH);

    let mut out = vec![0.0; 2 * CH];
    clip.mix_pickup(
        Frames(0),
        Frames(0),
        &mut out,
        Frames::zero(),
        &at_pan(CH, Ramp::UNITY, PanRamp::new(Pan::centre(), pan_for_step(6), 2)),
    );

    assert_eq!(out[0], 1.0, "the first frame is still centred");
    assert!(out[2] < out[0], "and the left has begun to give way");
    assert!(out[3] > out[1], "as the right takes over");
}

#[test]
fn lib_a_buffer_round_trips_across_a_segment_boundary() {
    let mut pool = SegmentPool::new(4, CH, 0.0);
    let mut buffer = AudioBuffer::new(4, CH, 0.0);

    // Straddle the first segment boundary.
    let at = SEGMENT_FRAMES as u64 - 100;
    let src = ramp(200, 0);
    assert_eq!(buffer.write(at, &src, &mut pool), 200);
    assert_eq!(pool.available(), 2, "two segments should be in use");

    let clip = Clip::new(buffer, Frames(at + 200), Frames(0), CH);
    let mut out = vec![0.0; 200 * CH];
    clip.mix_into(Frames(at), &mut out, &at_gain(Ramp::UNITY));
    assert_eq!(out, src);
}

#[test]
fn a_reservation_takes_segments_out_of_reach() {
    let mut pool = SegmentPool::new(4, CH, 0.0);
    pool.reserve(3);
    assert_eq!(pool.available(), 1);
    assert_eq!(pool.reserved(), 3);

    let mut buffer = AudioBuffer::new(4, CH, 0.0);
    let src = ramp(SEGMENT_FRAMES + 10, 0);
    assert_eq!(
        buffer.write(0, &src, &mut pool),
        SEGMENT_FRAMES,
        "one segment, then the reservation stops it"
    );
    assert_eq!(pool.available(), 0);
}

#[test]
fn releasing_a_reservation_puts_the_segments_back() {
    let mut pool = SegmentPool::new(4, CH, 0.0);
    pool.reserve(4);
    assert_eq!(pool.available(), 0);

    pool.release(4);
    assert_eq!(pool.available(), 4);
    assert_eq!(pool.reserved(), 0);
}

#[test]
fn a_reservation_survives_being_made_before_the_one_it_replaces_is_released() {
    let mut pool = SegmentPool::new(4, CH, 0.0);
    pool.reserve(4);

    // A replacement reserves the incoming clip before retiring the outgoing one, so
    // the two overlap.
    pool.reserve(4);
    pool.release(4);

    assert_eq!(
        pool.reserved(),
        4,
        "the incoming clip is still accounted for"
    );
    assert_eq!(pool.available(), 0);
}

#[test]
fn a_reservation_past_the_pool_leaves_nothing_available() {
    let mut pool = SegmentPool::new(2, CH, 0.0);
    pool.reserve(100);
    assert_eq!(pool.available(), 0);
    assert_eq!(pool.reserved(), 100, "the count stays exact");

    pool.release(100);
    assert_eq!(pool.available(), 2, "and is exactly undone");
}

#[test]
fn segments_out_on_loan_do_not_shrink_a_reservation() {
    let mut pool = SegmentPool::new(4, CH, 0.0);
    let mut held = AudioBuffer::new(2, CH, 0.0);
    held.write(0, &ramp(SEGMENT_FRAMES + 1, 0), &mut pool);
    assert_eq!(pool.available(), 2, "two segments are out");

    // A load arriving while a snapshot still holds owned storage.
    pool.reserve(2);
    assert_eq!(pool.available(), 0);

    held.drain_into(&mut pool);
    assert_eq!(pool.available(), 2, "what came back is not the reservation");
}

#[test]
fn a_clip_costs_whole_segments() {
    assert_eq!(segments_for(Frames(0)), 0);
    assert_eq!(segments_for(Frames(1)), 1);
    assert_eq!(segments_for(Frames(SEGMENT_FRAMES as u64)), 1);
    assert_eq!(segments_for(Frames(SEGMENT_FRAMES as u64 + 1)), 2);
}

#[test]
fn lib_writing_stops_when_the_pool_runs_dry() {
    let mut pool = SegmentPool::new(1, CH, 0.0);
    let mut buffer = AudioBuffer::new(4, CH, 0.0);

    let src = ramp(SEGMENT_FRAMES + 500, 0);
    let written = buffer.write(0, &src, &mut pool);
    assert_eq!(written, SEGMENT_FRAMES);
    assert_eq!(pool.available(), 0);
}

#[test]
fn lib_segments_return_to_the_pool() {
    let mut pool = SegmentPool::new(4, CH, 0.0);
    let mut buffer = AudioBuffer::new(4, CH, 0.0);
    buffer.write(0, &ramp(10, 0), &mut pool);
    assert_eq!(pool.available(), 3);

    let mut clip = Clip::new(buffer, Frames(10), Frames(0), CH);
    clip.release_segments(&mut pool);
    assert_eq!(pool.available(), 4);
}

#[test]
fn lib_playback_wraps_at_the_loop_length() {
    let mut pool = SegmentPool::new(2, CH, 0.0);
    let mut buffer = AudioBuffer::new(2, CH, 0.0);
    let src = ramp(4, 0);
    buffer.write(0, &src, &mut pool);

    let clip = Clip::new(buffer, Frames(4), Frames(0), CH);
    let mut out = vec![0.0; 10 * CH];
    clip.mix_into(Frames(0), &mut out, &at_gain(Ramp::UNITY));

    let expected: Vec<f32> = (0..10)
        .flat_map(|f| [(f % 4 * CH) as f32, (f % 4 * CH + 1) as f32])
        .collect();
    assert_eq!(out, expected);
}

#[test]
fn lib_phase_follows_the_transport_not_the_launch() {
    let mut pool = SegmentPool::new(2, CH, 0.0);
    let mut buffer = AudioBuffer::new(2, CH, 0.0);
    buffer.write(0, &ramp(4, 0), &mut pool);

    // Recorded starting at frame 100, so frame 106 is phase 2.
    let clip = Clip::new(buffer, Frames(4), Frames(100), CH);
    let mut out = vec![0.0; 2 * CH];
    clip.mix_into(Frames(106), &mut out, &at_gain(Ramp::UNITY));
    assert_eq!(out, vec![4.0, 5.0, 6.0, 7.0]);
}

#[test]
fn lib_a_clip_ahead_of_the_transport_still_plays_its_phase() {
    let mut pool = SegmentPool::new(2, CH, 0.0);
    let mut buffer = AudioBuffer::new(2, CH, 0.0);
    buffer.write(0, &ramp(4, 0), &mut pool);

    // Saved with a phase near the end of the loop, then played from a transport that
    // has only just started.
    let clip = Clip::new(buffer, Frames(4), Frames(3), CH);

    let mut out = vec![0.0; 2 * CH];
    clip.mix_into(Frames(0), &mut out, &at_gain(Ramp::UNITY));
    assert_eq!(out, vec![2.0, 3.0, 4.0, 5.0], "phase 1, not phase 0");

    let mut later = vec![0.0; 2 * CH];
    clip.mix_into(Frames(1), &mut later, &at_gain(Ramp::UNITY));
    assert_eq!(later, vec![4.0, 5.0, 6.0, 7.0], "and it advances");
}

#[test]
fn lib_phase_is_the_same_a_whole_number_of_loops_apart() {
    let mut pool = SegmentPool::new(2, CH, 0.0);
    let mut buffer = AudioBuffer::new(2, CH, 0.0);
    buffer.write(0, &ramp(4, 0), &mut pool);
    let clip = Clip::new(buffer, Frames(4), Frames(3), CH);

    let mut early = vec![0.0; 4 * CH];
    let mut late = vec![0.0; 4 * CH];
    clip.mix_into(Frames(1), &mut early, &at_gain(Ramp::UNITY));
    clip.mix_into(Frames(1 + 4 * 1_000), &mut late, &at_gain(Ramp::UNITY));
    assert_eq!(early, late);
}

#[test]
fn lib_unwritten_segments_read_as_silence() {
    let mut pool = SegmentPool::new(2, CH, 0.0);
    let buffer = AudioBuffer::new(2, CH, 0.0);
    let clip = Clip::new(buffer, Frames(8), Frames(0), CH);

    let mut out = vec![1.0; 8 * CH];
    clip.mix_into(Frames(0), &mut out, &at_gain(Ramp::UNITY));
    assert_eq!(
        out,
        vec![1.0; 8 * CH],
        "mixing adds, so silence leaves dst alone"
    );

    let mut clip = clip;
    clip.release_segments(&mut pool);
    assert_eq!(pool.available(), 2, "an unwritten clip holds no segments");
}

#[test]
fn lib_a_reset_clip_keeps_its_storage() {
    let mut pool = SegmentPool::new(4, CH, 0.0);
    let mut clip = Clip::empty(4, CH, 0.0);
    clip.write(0, &ramp(10, 0), &mut pool);
    clip.set_len(Frames(10));
    assert_eq!(pool.available(), 3);

    clip.reset();
    assert_eq!(clip.len(), Frames::zero());
    assert_eq!(
        pool.available(),
        3,
        "reset keeps the segments; release_segments hands them back"
    );

    clip.release_segments(&mut pool);
    assert_eq!(pool.available(), 4);
}

#[test]
fn lib_mixing_adds_rather_than_overwrites() {
    let mut pool = SegmentPool::new(1, CH, 0.0);
    let mut buffer = AudioBuffer::new(1, CH, 0.0);
    buffer.write(0, &vec![0.5; 4 * CH], &mut pool);

    let clip = Clip::new(buffer, Frames(4), Frames(0), CH);
    let mut out = vec![0.25; 4 * CH];
    clip.mix_into(Frames(0), &mut out, &at_gain(Ramp::UNITY));
    assert_eq!(out, vec![0.75; 4 * CH]);
}
