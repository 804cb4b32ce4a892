use std::sync::Arc;

use free_loop::clip::{AudioBuffer, Clip};
use free_loop::recycle::{channel, place, Placed, SLOTS};
use free_loop::time::Frames;

const CH: usize = 2;

fn clip() -> Arc<Clip<f32>> {
    Arc::new(Clip::new(
        AudioBuffer::new(2, CH, 0.0),
        Frames(64),
        Frames(0),
        CH,
    ))
}

#[test]
fn a_clip_nobody_is_reading_comes_straight_back() {
    let (mut engine, mut recycler) = channel::<f32>();
    engine.retire(clip());

    assert_eq!(recycler.run(), 1);

    let mut taken = 0;
    taken += engine.reclaim().len();
    assert_eq!(taken, 1);
}

#[test]
fn a_clip_someone_is_reading_is_held_back() {
    let (mut engine, mut recycler) = channel::<f32>();
    let held = clip();
    engine.retire(Arc::clone(&held));

    assert_eq!(recycler.run(), 0, "a reader still has it");
    assert_eq!(recycler.waiting(), 1);

    let mut taken = 0;
    taken += engine.reclaim().len();
    assert_eq!(taken, 0);

    drop(held);
    assert_eq!(recycler.run(), 1);
    assert_eq!(recycler.waiting(), 0);
}

#[test]
fn a_held_clip_does_not_block_the_ones_behind_it() {
    let (mut engine, mut recycler) = channel::<f32>();
    let held = clip();
    engine.retire(Arc::clone(&held));
    engine.retire(clip());
    engine.retire(clip());

    assert_eq!(recycler.run(), 2, "the free ones go back regardless");
    assert_eq!(recycler.waiting(), 1);

    drop(held);
    assert_eq!(recycler.run(), 1);
}

#[test]
fn a_full_ring_parks_clips_rather_than_dropping_them() {
    let (mut engine, mut recycler) = channel::<f32>();

    // One more than the ring holds. Dropping the extra would allocate in the audio
    // callback.
    for _ in 0..=SLOTS {
        engine.retire(clip());
    }
    assert_eq!(engine.parked(), 1);

    recycler.run();
    let mut taken = 0;
    taken += engine.reclaim().len();
    assert_eq!(taken, SLOTS);
    assert_eq!(engine.parked(), 0, "the parked clip made it onto the ring");

    recycler.run();
    taken += engine.reclaim().len();
    assert_eq!(taken, SLOTS + 1, "every clip came home");
}

#[test]
fn borrowed_storage_goes_back_to_the_caller() {
    let (mut engine, mut recycler) = channel::<f32>();
    let mut lent = clip();
    Arc::get_mut(&mut lent).unwrap().set_borrowed(true);

    engine.retire(lent);
    engine.retire(clip());

    assert_eq!(recycler.run(), 1, "only the engine's own goes back to it");

    let taken: Vec<_> = recycler.take_borrowed();
    assert_eq!(taken.len(), 1);
    assert!(taken[0].is_borrowed());
    assert_eq!(recycler.take_borrowed().len(), 0, "taken once");
}

#[test]
fn reclaiming_with_nothing_to_do_is_harmless() {
    let (mut engine, mut recycler) = channel::<f32>();
    assert_eq!(recycler.run(), 0);

    let mut taken = 0;
    taken += engine.reclaim().len();
    assert_eq!(taken, 0);
}

#[test]
fn a_retired_clip_goes_where_it_can() {
    let own = clip();
    let mut lent = clip();
    Arc::get_mut(&mut lent).unwrap().set_borrowed(true);

    assert_eq!(place(&own, true, true), Placed::Back);
    assert_eq!(place(&own, true, false), Placed::Held);
    assert_eq!(place(&own, false, true), Placed::Held);
    assert_eq!(place(&lent, true, false), Placed::Lender);
    assert_eq!(place(&lent, false, true), Placed::Held);
}
