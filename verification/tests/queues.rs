//! The queues between threads, and what goes over them.

use std::sync::Arc;

use free_loop::capture::{capture_ring, CaptureReader, CaptureWriter, ChannelMap};
use free_loop::clip::{AudioBuffer, Clip};
use free_loop::command::Command;
use free_loop::control::Work;
use free_loop::event::{Event, EventKind, EventSink};
use free_loop::ids::{SlotAddr, SlotId, TrackId};
use free_loop::lane::lane;
use free_loop::load::{channel, has_room, BeginError, ClipFull, SLOTS};
use free_loop::looping::hand_over;
use free_loop::queue::drain;
use free_loop::recycle::Parcel;
use free_loop::reports::{drain_events, reports, DroppedEvents, EVENT_SLOTS};
use free_loop::time::{Frames, SampleRate, Tempo, TimeError, TimeSignature, MIN_BPM};

fn pad(track: u8, slot: u8) -> SlotAddr {
    SlotAddr::new(TrackId::new(track).unwrap(), SlotId::new(slot).unwrap())
}

#[test]
fn values_come_out_in_the_order_they_went_in() {
    let (mut out, mut inbox) = lane(3);
    let mut queued: Vec<Work> = vec![
        Work::Command(Command::StopAll),
        Work::Command(Command::Rewind),
    ];
    assert!(hand_over(&mut queued, false, &mut out).is_none());
    assert_eq!(
        drain(&mut inbox, 3),
        vec![Command::StopAll, Command::Rewind]
    );
    assert!(drain(&mut inbox, 3).is_empty());
}

#[test]
fn a_drain_stops_at_the_most_it_was_asked_for() {
    let (mut sink, mut inbox) = reports();
    for bar in 0..5 {
        sink.event(Event::Bar { bar });
    }
    assert_eq!(
        drain(&mut inbox, 2),
        vec![Event::Bar { bar: 0 }, Event::Bar { bar: 1 }]
    );
    assert_eq!(drain(&mut inbox, 8).len(), 3);
}

#[test]
fn a_full_lane_hands_the_value_back() {
    let (mut loader, mut inbox) = channel::<f32>(SampleRate::new(48_000).unwrap());
    while loader.end().is_ok() {}
    let clip = Arc::new(Clip::new(
        AudioBuffer::new(1, 2, 0.0),
        Frames(64),
        Frames(7),
        2,
    ));
    let Err(ClipFull(back)) = loader.clip(pad(0, 0), Parcel::new(clip), true, None) else {
        panic!("there was no room");
    };
    assert_eq!(back.open().recorded_at(), Frames(7), "the same clip");

    assert!(inbox.pop().is_some());
    assert!(loader.end().is_ok(), "one place came free");
}

#[test]
fn as_many_values_go_as_there_is_room_for() {
    let map = ChannelMap::whole(2);
    let (mut writer, mut reader) = capture_ring(256, 0, map, 0.0_f32);
    let capacity = reader_capacity(&mut writer, &reader);
    let mut dst = vec![9.0_f32; capacity * 2 + 4];
    assert_eq!(reader.read(&mut dst), capacity * 2);
    assert_eq!(dst[..4], [1.0, 2.0, 3.0, 4.0]);
    assert_eq!(dst[capacity * 2..], [9.0; 4], "places past the end are left");
    assert_eq!(reader.read(&mut dst), 0, "nothing is waiting");
}

/// Writes one, two, three and so on until the ring is full. Returns how many frames it holds.
fn reader_capacity(writer: &mut CaptureWriter<f32>, reader: &CaptureReader<f32>) -> usize {
    let mut frame: u32 = 0;
    loop {
        let pair = [(2 * frame + 1) as f32, (2 * frame + 2) as f32];
        if writer.write(&pair) > 0 {
            return reader.available_frames();
        }
        frame += 1;
    }
}

#[test]
fn reports_that_do_not_fit_are_counted_by_kind() {
    let (mut sink, mut inbox) = reports();
    for total in 0..EVENT_SLOTS as u64 {
        sink.event(Event::Clock { total });
    }
    sink.event(Event::TempoRejected);
    sink.event(Event::Clipped { samples: 3 });
    sink.event(Event::Clipped { samples: 4 });

    let lost: Vec<(EventKind, u64)> = sink.dropped().since(&DroppedEvents::new());
    assert!(lost.contains(&(EventKind::TempoRejected, 1)));
    assert!(lost.contains(&(EventKind::Clipped, 2)));
    assert_eq!(lost.len(), 2);

    let drained = drain_events(&mut inbox);
    assert_eq!(drained.len(), EVENT_SLOTS);
    assert_eq!(drained[7], Event::Clock { total: 7 });
    assert!(drain_events(&mut inbox).is_empty());
}

#[test]
fn reports_are_drained_in_order() {
    let (mut sink, mut inbox) = reports();
    sink.event(Event::Bar { bar: 1 });
    sink.event(Event::RecordingRefused { addr: pad(1, 2) });
    assert_eq!(
        drain_events(&mut inbox),
        vec![
            Event::Bar { bar: 1 },
            Event::RecordingRefused { addr: pad(1, 2) }
        ]
    );
    assert!(sink.dropped().same(&DroppedEvents::new()));
}

#[test]
fn a_load_that_cannot_begin_says_why() {
    let (mut loader, _inbox) = channel::<f32>(SampleRate::new(48_000).unwrap());
    let slowest = Tempo::new(MIN_BPM).unwrap();
    let longest = TimeSignature::new(u32::MAX, 2).unwrap();
    assert!(matches!(
        loader.begin(slowest, longest),
        Err(BeginError::Time(TimeError::BarLengthUnrepresentable))
    ));
    while loader.end().is_ok() {}
    assert!(matches!(
        loader.begin(slowest, TimeSignature::four_four()),
        Err(BeginError::Full)
    ));
    assert!(!loader.ready());
}

#[test]
fn a_whole_session_needs_every_place_of_the_queue() {
    assert!(has_room(SLOTS));
    assert!(!has_room(SLOTS - 1));
}

#[test]
fn a_capture_ring_holds_the_cushion_and_a_block_at_least() {
    let map = ChannelMap::whole(2);
    let (mut writer, reader) = capture_ring(1, 100, map, 0.0_f32);
    assert_eq!(reader_capacity(&mut writer, &reader), 100 + 4_096);

    let (mut writer, reader) = capture_ring(5_000, 100, map, 0.0_f32);
    assert_eq!(reader_capacity(&mut writer, &reader), 5_000);
}
