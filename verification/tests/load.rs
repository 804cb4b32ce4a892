use std::sync::Arc;

use free_loop::clip::{AudioBuffer, Clip};
use free_loop::ids::{SlotAddr, SlotId, TrackId};
use free_loop::load::{channel, LoadMessage, QueueError, SavedClip, SLOTS};
use free_loop::recycle::Parcel;
use free_loop::time::{Frames, SampleRate, Tempo, TimeError, TimeSignature, MIN_BPM};

fn tempo(bpm: f64) -> Result<Tempo, TimeError> {
    Tempo::new(bpm.to_bits())
}

fn clip() -> Arc<Clip<f32>> {
    Arc::new(Clip::new(AudioBuffer::new(1, 2, 0.0), Frames(64), Frames(0), 2))
}

fn rate() -> SampleRate {
    SampleRate::new(48_000).unwrap()
}

#[test]
fn a_grid_carries_the_rate_the_engine_runs_at() {
    let (loader, _inbox) = channel::<f32>(rate());
    let grid = loader
        .grid(tempo(120.0).unwrap(), TimeSignature::four_four())
        .unwrap();
    assert_eq!(grid.get().sample_rate(), rate(), "not the caller's choice");

    // Unmeasurable musical time is refused here, before anything is queued.
    assert!(
        loader
            .grid(
                Tempo::new(MIN_BPM).unwrap(),
                TimeSignature::new(u32::MAX, 2).unwrap(),
            )
            .is_err()
    );
}

fn addr(track: u8, slot: u8) -> SlotAddr {
    SlotAddr::new(TrackId::new(track).unwrap(), SlotId::new(slot).unwrap())
}

#[test]
fn messages_arrive_in_the_order_they_were_sent() {
    let (mut loader, mut inbox) = channel::<f32>(rate());
    let grid = loader
        .grid(tempo(120.0).unwrap(), TimeSignature::four_four())
        .unwrap();
    assert!(loader.send(LoadMessage::Begin { grid }).is_ok());
    let sent = loader.send(LoadMessage::Clip {
            addr: addr(1, 2),
            clip: Parcel::new(clip()),
            playing: true,
            launch_anchor: None,
        });
    assert!(sent.is_ok());
    assert!(loader.send(LoadMessage::End).is_ok());

    let mut seen = Vec::new();
    for m in inbox.drain() {
        seen.push(match m {
            LoadMessage::Begin { .. } => "begin",
            LoadMessage::Clip { .. } => "clip",
            LoadMessage::End => "end",
        });
    }
    assert_eq!(seen, vec!["begin", "clip", "end"]);
}

#[test]
fn a_full_queue_hands_the_message_back() {
    let (mut loader, _inbox) = channel::<f32>(rate());
    for _ in 0..SLOTS {
        assert!(loader.send(LoadMessage::End).is_ok());
    }
    assert!(!loader.ready());
    assert!(loader.send(LoadMessage::End).is_err());
}

#[test]
fn a_drained_queue_has_room_for_a_whole_session() {
    let (mut loader, mut inbox) = channel::<f32>(rate());
    assert!(loader.send(LoadMessage::End).is_ok());
    assert!(!loader.ready());

    inbox.drain();
    assert!(loader.ready());
}

fn saved(track: u8, playing: bool) -> SavedClip<f32> {
    SavedClip {
        addr: addr(track, 0),
        clip: Parcel::new(clip()),
        playing,
        launch_anchor: Some(Frames(u64::from(track))),
    }
}

#[test]
fn a_whole_session_is_queued_between_its_markers() {
    let (mut loader, mut inbox) = channel::<f32>(rate());
    let clips = vec![saved(3, true), saved(5, false)];
    let time = TimeSignature::four_four();
    assert!(loader.queue(tempo(90.0).unwrap(), time, clips).is_ok());

    let steps = inbox.drain();
    assert_eq!(steps.len(), 4);
    assert!(matches!(
        &steps[0],
        LoadMessage::Begin { grid } if grid.get().tempo() == tempo(90.0).unwrap()
    ));
    assert!(matches!(
        &steps[1],
        LoadMessage::Clip { addr: pad, playing: true, launch_anchor: Some(Frames(3)), .. }
            if *pad == addr(3, 0)
    ));
    assert!(matches!(
        &steps[2],
        LoadMessage::Clip { addr: pad, playing: false, .. } if *pad == addr(5, 0)
    ));
    assert!(matches!(&steps[3], LoadMessage::End));
}

#[test]
fn a_session_that_cannot_be_queued_says_why() {
    let (mut loader, mut inbox) = channel::<f32>(rate());
    let longest = TimeSignature::new(u32::MAX, 2).unwrap();
    assert_eq!(
        loader.queue(Tempo::new(MIN_BPM).unwrap(), longest, Vec::new()),
        Err(QueueError::Time(TimeError::BarLengthUnrepresentable))
    );
    assert!(inbox.drain().is_empty(), "nothing was queued");

    let time = TimeSignature::four_four();
    let many: Vec<SavedClip<f32>> = (0..SLOTS).map(|_| saved(0, false)).collect();
    assert_eq!(
        loader.queue(tempo(90.0).unwrap(), time, many),
        Err(QueueError::Full)
    );
    assert_eq!(
        loader.queue(tempo(90.0).unwrap(), time, Vec::new()),
        Err(QueueError::Busy)
    );
    assert_eq!(inbox.drain().len(), SLOTS);
}

#[test]
fn a_fresh_queue_takes_as_many_messages_as_it_holds() {
    let (mut loader, mut inbox) = channel::<f32>(rate());
    assert!(loader.ready());
    for _ in 0..SLOTS {
        assert!(loader.end().is_ok());
    }
    assert!(loader.end().is_err());
    assert_eq!(inbox.drain().len(), SLOTS);
    assert!(loader.ready());
}
