use free_loop::clip::{AudioBuffer, Clip, SegmentPool, SEGMENT_FRAMES};
use free_loop::time::Frames;

/// One frame of one channel, mixed at the level it was recorded at.
fn added(_: usize, _: usize, _: usize, before: f32, own: f32, _: f32) -> f32 {
    before + own
}

const CH: usize = 2;

fn ramp(frames: usize, start: usize) -> Vec<f32> {
    (0..frames * CH)
        .map(|i| (start * CH + i) as f32)
        .collect::<Vec<_>>()
}

#[test]
fn buffer_a_buffer_round_trips_across_a_segment_boundary() {
    let mut pool = SegmentPool::new(4, CH, 0.0);
    let mut buffer = AudioBuffer::new(4, CH, 0.0);

    // Straddle the first segment boundary.
    let at = SEGMENT_FRAMES as u64 - 100;
    let src = ramp(200, 0);
    assert_eq!(buffer.write(at, &src, &mut pool), 200);
    assert_eq!(pool.available(), 2, "two segments should be in use");

    let clip = Clip::new(buffer, Frames(at + 200), Frames(0), CH);
    let mut out = vec![0.0; 200 * CH];
    clip.mix_into(Frames(at), &mut out, &added);
    assert_eq!(out, src);
}

#[test]
fn buffer_writing_stops_when_the_pool_runs_dry() {
    let mut pool = SegmentPool::new(1, CH, 0.0);
    let mut buffer = AudioBuffer::new(4, CH, 0.0);

    let src = ramp(SEGMENT_FRAMES + 500, 0);
    let written = buffer.write(0, &src, &mut pool);
    assert_eq!(written, SEGMENT_FRAMES);
    assert_eq!(pool.available(), 0);
}

#[test]
fn buffer_segments_return_to_the_pool() {
    let mut pool = SegmentPool::new(4, CH, 0.0);
    let mut buffer = AudioBuffer::new(4, CH, 0.0);
    buffer.write(0, &ramp(10, 0), &mut pool);
    assert_eq!(pool.available(), 3);

    let mut clip = Clip::new(buffer, Frames(10), Frames(0), CH);
    clip.release_segments(&mut pool);
    assert_eq!(pool.available(), 4);
}

#[test]
fn buffer_playback_wraps_at_the_loop_length() {
    let mut pool = SegmentPool::new(2, CH, 0.0);
    let mut buffer = AudioBuffer::new(2, CH, 0.0);
    let src = ramp(4, 0);
    buffer.write(0, &src, &mut pool);

    let clip = Clip::new(buffer, Frames(4), Frames(0), CH);
    let mut out = vec![0.0; 10 * CH];
    clip.mix_into(Frames(0), &mut out, &added);

    let expected: Vec<f32> = (0..10)
        .flat_map(|f| [(f % 4 * CH) as f32, (f % 4 * CH + 1) as f32])
        .collect();
    assert_eq!(out, expected);
}

#[test]
fn buffer_phase_follows_the_transport_not_the_launch() {
    let mut pool = SegmentPool::new(2, CH, 0.0);
    let mut buffer = AudioBuffer::new(2, CH, 0.0);
    buffer.write(0, &ramp(4, 0), &mut pool);

    // Recorded starting at frame 100, so frame 106 is phase 2.
    let clip = Clip::new(buffer, Frames(4), Frames(100), CH);
    let mut out = vec![0.0; 2 * CH];
    clip.mix_into(Frames(106), &mut out, &added);
    assert_eq!(out, vec![4.0, 5.0, 6.0, 7.0]);
}

#[test]
fn buffer_a_clip_ahead_of_the_transport_still_plays_its_phase() {
    let mut pool = SegmentPool::new(2, CH, 0.0);
    let mut buffer = AudioBuffer::new(2, CH, 0.0);
    buffer.write(0, &ramp(4, 0), &mut pool);

    // Saved with a phase near the end of the loop, then played from a transport that
    // has only just started.
    let clip = Clip::new(buffer, Frames(4), Frames(3), CH);

    let mut out = vec![0.0; 2 * CH];
    clip.mix_into(Frames(0), &mut out, &added);
    assert_eq!(out, vec![2.0, 3.0, 4.0, 5.0], "phase 1, not phase 0");

    let mut later = vec![0.0; 2 * CH];
    clip.mix_into(Frames(1), &mut later, &added);
    assert_eq!(later, vec![4.0, 5.0, 6.0, 7.0], "and it advances");
}

#[test]
fn buffer_phase_is_the_same_a_whole_number_of_loops_apart() {
    let mut pool = SegmentPool::new(2, CH, 0.0);
    let mut buffer = AudioBuffer::new(2, CH, 0.0);
    buffer.write(0, &ramp(4, 0), &mut pool);
    let clip = Clip::new(buffer, Frames(4), Frames(3), CH);

    let mut early = vec![0.0; 4 * CH];
    let mut late = vec![0.0; 4 * CH];
    clip.mix_into(Frames(1), &mut early, &added);
    clip.mix_into(Frames(1 + 4 * 1_000), &mut late, &added);
    assert_eq!(early, late);
}

#[test]
fn buffer_unwritten_segments_read_as_silence() {
    let mut pool = SegmentPool::new(2, CH, 0.0);
    let buffer = AudioBuffer::new(2, CH, 0.0);
    let clip = Clip::new(buffer, Frames(8), Frames(0), CH);

    let mut out = vec![1.0; 8 * CH];
    clip.mix_into(Frames(0), &mut out, &added);
    assert_eq!(
        out,
        vec![1.0; 8 * CH],
        "mixing adds, so silence leaves dst alone"
    );

    let mut clip = clip;
    clip.release_segments(&mut pool);
    assert_eq!(pool.available(), 2, "an unwritten clip holds no segments");
}

#[test]
fn buffer_a_reset_clip_keeps_its_storage() {
    let mut pool = SegmentPool::new(4, CH, 0.0);
    let mut clip = Clip::empty(4, CH, 0.0);
    clip.write(0, &ramp(10, 0), &mut pool);
    clip.set_len(Frames(10));
    assert_eq!(pool.available(), 3);

    clip.reset();
    assert_eq!(clip.len(), Frames::zero());
    assert_eq!(
        pool.available(),
        3,
        "reset keeps the segments; release_segments hands them back"
    );

    clip.release_segments(&mut pool);
    assert_eq!(pool.available(), 4);
}

#[test]
fn buffer_mixing_adds_rather_than_overwrites() {
    let mut pool = SegmentPool::new(1, CH, 0.0);
    let mut buffer = AudioBuffer::new(1, CH, 0.0);
    buffer.write(0, &vec![0.5; 4 * CH], &mut pool);

    let clip = Clip::new(buffer, Frames(4), Frames(0), CH);
    let mut out = vec![0.25; 4 * CH];
    clip.mix_into(Frames(0), &mut out, &added);
    assert_eq!(out, vec![0.75; 4 * CH]);
}
