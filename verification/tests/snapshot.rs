use std::sync::Arc;

use free_loop::clip::{AudioBuffer, Clip};
use free_loop::ids::{ClipId, SlotAddr, SlotId, TrackId};
use free_loop::slot::SlotState;
use free_loop::snapshot::{channel, Snapshot, SLOTS};
use free_loop::time::Frames;

fn snapshot(track: u8, slot: u8) -> Snapshot<f32> {
    Snapshot {
        request: 1,
        addr: SlotAddr::new(TrackId::new(track).unwrap(), SlotId::new(slot).unwrap()),
        state: SlotState::Stopped { clip: ClipId(0) },
        launch_anchor: None,
        clip: Arc::new(Clip::new(AudioBuffer::new(1, 2, 0.0), Frames(64), Frames(0), 2)),
    }
}

#[test]
fn published_snapshots_arrive_in_order() {
    let (mut writer, mut reader) = channel::<f32>();
    writer.publish(snapshot(0, 0));
    writer.publish(snapshot(1, 2));

    let mut seen = Vec::new();
    for s in reader.drain() {
        seen.push((s.addr.track.index(), s.addr.slot.index()));
    }
    assert_eq!(seen, vec![(0, 0), (1, 2)]);
}

#[test]
fn draining_twice_does_not_repeat() {
    let (mut writer, mut reader) = channel::<f32>();
    writer.publish(snapshot(0, 0));

    let mut count = 0;
    count += reader.drain().len();
    count += reader.drain().len();
    assert_eq!(count, 1);
}

#[test]
fn a_snapshot_keeps_the_clip_alive() {
    let (mut writer, mut reader) = channel::<f32>();
    let clip = Arc::new(Clip::new(AudioBuffer::new(1, 2, 0.0), Frames(64), Frames(0), 2));

    let mut published = snapshot(0, 0);
    published.clip = Arc::clone(&clip);
    writer.publish(published);

    let mut held = None;
    for s in reader.drain() {
        held = Some(s.clip);
    }
    assert_eq!(Arc::strong_count(&clip), 2, "the reader has a reference");

    drop(held);
    assert_eq!(Arc::strong_count(&clip), 1);
}

#[test]
fn an_unread_queue_counts_drops_rather_than_blocking() {
    let (mut writer, _reader) = channel::<f32>();
    for _ in 0..=SLOTS {
        writer.publish(snapshot(0, 0));
    }
    assert_eq!(writer.dropped(), 1);
}
