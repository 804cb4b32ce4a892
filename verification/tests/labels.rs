use free_loop::ids::{SlotAddr, SlotId, TrackId, SLOT_COUNT, TRACK_COUNT};
use free_loop::labels::{control_pad, fixed, grid_pad, side_pad, Spot};
use free_loop::surface::{Control, SIDE_COUNT};

fn addr(track: usize, slot: usize) -> SlotAddr {
    SlotAddr::new(
        TrackId::new(u8::try_from(track).unwrap()).unwrap(),
        SlotId::new(u8::try_from(slot).unwrap()).unwrap(),
    )
}

fn named(spot: Spot) -> Option<String> {
    fixed()
        .into_iter()
        .find(|(at, _)| *at == spot)
        .map(|(_, name)| name)
}

#[test]
fn every_button_the_looper_uses_is_named() {
    for track in 0..TRACK_COUNT {
        for slot in 0..SLOT_COUNT {
            assert_eq!(
                named(grid_pad(addr(track, slot))),
                Some(format!("track {track} slot {slot}"))
            );
        }
    }
    for index in 0..SIDE_COUNT {
        assert!(named(side_pad(index)).is_some(), "side {index}");
    }
    for control in Control::all() {
        assert!(named(control_pad(control.index())).is_some(), "{control:?}");
    }
}

#[test]
fn a_button_is_named_by_its_job() {
    assert_eq!(named(side_pad(0)).as_deref(), Some("volume"));
    assert_eq!(named(side_pad(1)).as_deref(), Some("unused"));
    assert_eq!(named(side_pad(4)).as_deref(), Some("play / pause"));
    assert_eq!(named(control_pad(0)).as_deref(), Some("tempo up"));
    assert_eq!(named(control_pad(7)).as_deref(), Some("save session"));
    assert_eq!(fixed().len(), 80);
    assert_eq!(grid_pad(addr(7, 7)), Spot { x: 7, y: 8 });
}
