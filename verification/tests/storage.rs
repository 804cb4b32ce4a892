//! Storage, and what is read back from it.

use std::sync::Arc;

use free_loop::clip::{AudioBuffer, Clip, SegmentPool, SEGMENT_FRAMES};
use free_loop::command::Command;
use free_loop::engine::{Engine, EngineConfig, Housekeeping};
use free_loop::event::Event;
use free_loop::ids::{SlotAddr, SlotId, TrackId, TrackInput};
use free_loop::recycle::Parcel;
use free_loop::slot::SlotState;
use free_loop::time::{Frames, Tempo, TimeSignature};

fn pad(track: u8, slot: u8) -> SlotAddr {
    SlotAddr::new(TrackId::new(track).unwrap(), SlotId::new(slot).unwrap())
}

fn ramp(frames: usize) -> Vec<f32> {
    (0..frames * 2).map(|i| i as f32).collect()
}

/// One frame of one channel, mixed at the level it was recorded at.
fn added(_: usize, _: usize, _: usize, before: f32, own: f32, _: f32) -> f32 {
    before + own
}

#[test]
fn what_is_written_reads_back_across_segments() {
    let mut pool = SegmentPool::new(3, 2, 0.0);
    let mut clip = Clip::empty(3, 2, 0.0);
    let from = SEGMENT_FRAMES as u64 - 3;
    assert_eq!(clip.write(from, &ramp(6), &mut pool), 6);
    let mut out = vec![9.0; 8 * 2];
    clip.copy_into(Frames(from - 1), &mut out);
    assert_eq!(&out[..2], &[0.0, 0.0], "silence before it");
    assert_eq!(&out[2..14], ramp(6).as_slice());
    assert_eq!(&out[14..], &[0.0, 0.0], "and after it");
}

#[test]
fn a_mono_input_is_written_to_every_channel() {
    let mut pool = SegmentPool::new(1, 2, 0.0);
    let mut clip = Clip::empty(1, 2, 0.0);
    let picks = TrackInput::Mono(2).channels();
    let source = [1.0, 2.0, 3.0, 4.0, 5.0, 6.0];
    assert_eq!(clip.write_picked(0, &source, 3, picks.as_slice(), &mut pool), 2);
    let mut out = [0.0; 4];
    clip.copy_into(Frames(0), &mut out);
    assert_eq!(out, [3.0, 3.0, 6.0, 6.0]);
}

#[test]
fn a_pair_of_inputs_keeps_its_sides() {
    let mut pool = SegmentPool::new(1, 2, 0.0);
    let mut clip = Clip::empty(1, 2, 0.0);
    let picks = TrackInput::pair(2, 0).channels();
    let source = [1.0, 2.0, 3.0, 4.0, 5.0, 6.0];
    assert_eq!(clip.write_picked(0, &source, 3, picks.as_slice(), &mut pool), 2);
    let mut out = [0.0; 4];
    clip.copy_into(Frames(0), &mut out);
    assert_eq!(out, [1.0, 3.0, 4.0, 6.0], "the lower channel on the left");
}

#[test]
fn silence_takes_storage_like_anything_else() {
    let mut pool = SegmentPool::new(1, 2, 0.0);
    let mut clip = Clip::empty(2, 2, 0.0);
    assert_eq!(clip.silence(0, SEGMENT_FRAMES + 1, &mut pool), SEGMENT_FRAMES);
    assert_eq!(pool.available(), 0);
    clip.release_segments(&mut pool);
    assert_eq!(pool.available(), 1);
}

#[test]
fn a_pickup_opens_the_loop_from_its_tail() {
    let mut pool = SegmentPool::new(1, 2, 0.0);
    let mut buffer = AudioBuffer::new(1, 2, 0.0);
    buffer.write(0, &ramp(6), &mut pool);
    // Four frames of loop and two of tail.
    let mut clip = Clip::new(buffer, Frames(4), Frames(0), 2);
    clip.set_tail(Frames(2));

    let mut out = vec![0.0; 5 * 2];
    clip.mix_pickup(Frames(0), Frames(0), &mut out, Frames(3), &added);
    let frames: Vec<f32> = out.chunks(2).map(|frame| frame[0]).collect();
    assert_eq!(
        frames,
        vec![8.0, 10.0, 4.0, 6.0, 8.0],
        "no more of the tail than there is"
    );
}

#[test]
fn a_loop_opens_from_its_head_without_a_pickup() {
    let mut pool = SegmentPool::new(1, 2, 0.0);
    let mut buffer = AudioBuffer::new(1, 2, 0.0);
    buffer.write(0, &ramp(6), &mut pool);
    let mut clip = Clip::new(buffer, Frames(4), Frames(0), 2);
    clip.set_tail(Frames(2));
    let mut out = vec![0.0; 4 * 2];
    clip.mix_from(Frames(1), Frames(2), &mut out, &added);
    let frames: Vec<f32> = out.chunks(2).map(|frame| frame[0]).collect();
    assert_eq!(frames, vec![2.0, 4.0, 6.0, 0.0]);
}

fn engine(pool: usize) -> (Engine<f32>, Housekeeping<f32>) {
    let Ok(mut config) = EngineConfig::stereo_48k() else {
        panic!("the defaults were refused");
    };
    config.segment_pool = pool;
    match Engine::new(config, 0.0) {
        Ok(built) => built,
        Err(error) => panic!("refused: {error:?}"),
    }
}

fn lend(housekeeping: &mut Housekeeping<f32>, clips: &[(SlotAddr, u64)]) {
    let tempo = Tempo::new(90.0_f64.to_bits()).unwrap();
    let loader = &mut housekeeping.loader;
    assert!(loader.begin(tempo, TimeSignature::four_four()).is_ok());
    for (addr, frames) in clips {
        let clip = Clip::new(AudioBuffer::new(1, 2, 0.0), Frames(*frames), Frames(0), 2);
        let parcel = Parcel::new(Arc::new(clip));
        assert!(loader.clip(*addr, parcel, true, None).is_ok());
    }
    assert!(loader.end().is_ok());
}

#[test]
fn loaded_audio_draws_nothing_from_the_pool() {
    let (mut engine, mut housekeeping) = engine(4);
    lend(&mut housekeeping, &[(pad(0, 0), SEGMENT_FRAMES as u64 + 1)]);
    let mut events: Vec<Event> = Vec::new();
    assert!(!engine.begin_block(true, 0, 0, &mut events), "it waits");
    assert!(matches!(engine.state(pad(0, 0)), SlotState::Playing { .. }));
    assert_eq!(engine.segments_available(), 4, "it brings its own storage");

    assert!(engine.obey(Command::Clear(pad(0, 0)), &mut events));
    assert_eq!(engine.segments_available(), 4);
    housekeeping.recycler.run();
    let returned = housekeeping.recycler.take_borrowed();
    assert_eq!(returned.len(), 1, "whoever lent it gets it back");
    assert!(returned[0].is_borrowed());
}

#[test]
fn a_load_past_the_pool_is_refused_whole() {
    let (mut engine, mut housekeeping) = engine(2);
    let clips = [
        (pad(0, 0), SEGMENT_FRAMES as u64),
        (pad(1, 0), SEGMENT_FRAMES as u64 * 2),
    ];
    lend(&mut housekeeping, &clips);
    let mut events: Vec<Event> = Vec::new();
    assert!(engine.begin_block(true, 0, 0, &mut events), "it plays on");
    assert_eq!(
        events,
        vec![Event::LoadRefused {
            wanted: 3,
            allowed: 2
        }]
    );
    assert_eq!(engine.state(pad(0, 0)), SlotState::Empty);
    assert_eq!(engine.segments_available(), 2);
    housekeeping.recycler.run();
    assert_eq!(housekeeping.recycler.take_borrowed().len(), 2);
}

#[test]
fn a_resync_reports_without_changing_anything() {
    let (mut engine, _housekeeping) = engine(1);
    let mut events: Vec<Event> = Vec::new();
    let before = (engine.position(), engine.grid(), engine.is_paused());
    assert!(engine.obey(Command::Resync, &mut events));
    assert_eq!(events.len(), 2 + 64);
    assert!(matches!(events[0], Event::Tempo { .. }));
    assert!(matches!(
        events[1],
        Event::TimeSignature {
            beats_per_bar: 4,
            beat_unit: 4
        }
    ));
    assert_eq!((engine.position(), engine.grid(), engine.is_paused()), before);
}
