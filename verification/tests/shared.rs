//! What is done to a clip, for each answer to whether anybody else is reading it.

use free_loop::audio::Recording;
use free_loop::clip::{AudioBuffer, Clip, SegmentPool};
use free_loop::ids::TrackInput;
use free_loop::shared::{empty_clip, give_tail, lend_clip, move_start, seal_take, store_run};
use free_loop::time::Frames;

const CH: usize = 2;

fn clip() -> Clip<f32> {
    Clip::new(AudioBuffer::new(2, CH, 0.0), Frames(64), Frames(5), CH)
}

fn take() -> Recording {
    Recording {
        frames: 0,
        started_at: Frames(100),
        written: 0,
        input: TrackInput::Stereo,
        starved: false,
        tail_written: 0,
        tail_until: None,
    }
}

#[test]
fn a_take_is_sealed_only_through_its_sole_reference() {
    let mut held = clip();
    assert!(seal_take(Some(&mut held), Frames(100), Frames(400), Frames(30)));
    assert_eq!(held.len(), Frames(300));
    assert_eq!(held.recorded_at(), Frames(70));
    assert_eq!(held.capture_offset(), Frames(30));

    assert!(!seal_take::<f32>(None, Frames(100), Frames(400), Frames(30)));
}

#[test]
fn a_run_is_stored_with_silence_for_what_never_came() {
    let mut pool = SegmentPool::new(2, CH, 0.0);
    let mut held = clip();
    let captured = [1.0_f32, 2.0, 3.0, 4.0];
    let backed = store_run(Some(&mut held), take(), &captured, CH, 3, &mut pool);
    assert_eq!(backed, 3);
    assert_eq!(pool.available(), 1);
    let mut out = [9.0_f32; 6];
    held.copy_into(Frames(0), &mut out);
    assert_eq!(out, [1.0, 2.0, 3.0, 4.0, 0.0, 0.0]);

    assert_eq!(store_run(None, take(), &captured, CH, 3, &mut pool), 0);
    assert_eq!(pool.available(), 1, "nothing was drawn");
}

#[test]
fn an_emptied_clip_gives_its_storage_back() {
    let mut pool = SegmentPool::new(2, CH, 0.0);
    let mut held = clip();
    store_run(Some(&mut held), take(), &[1.0, 2.0], CH, 1, &mut pool);
    assert_eq!(pool.available(), 1);

    assert!(!empty_clip(None, &mut pool));
    assert_eq!(pool.available(), 1);
    assert!(empty_clip(Some(&mut held), &mut pool));
    assert_eq!(pool.available(), 2);
    assert_eq!(held.len(), Frames(0));
}

#[test]
fn a_clip_is_marked_moved_and_tailed_only_through_its_sole_reference() {
    let mut held = clip();
    assert!(lend_clip(Some(&mut held)));
    assert!(move_start(Some(&mut held), Frames(12)));
    assert!(give_tail(Some(&mut held), Frames(9)));
    assert!(held.is_borrowed());
    assert_eq!(held.recorded_at(), Frames(12));
    assert_eq!(held.tail(), Frames(9));

    assert!(!lend_clip::<f32>(None));
    assert!(!move_start::<f32>(None, Frames(12)));
    assert!(!give_tail::<f32>(None, Frames(9)));
}
