use free_loop::engine::{anchor_at_start, anchor_moved_back};
use free_loop::time::Frames;

#[test]
fn a_start_anchor_puts_the_downbeat_on_the_transport() {
    let len = Frames(1_000);

    // Frame zero was captured 40 frames after the beat it belongs to, so the anchor
    // sits 40 frames back and the beat itself lands on the transport.
    assert_eq!(anchor_at_start(len, Frames(40)), Frames(960));
    assert_eq!(anchor_at_start(len, Frames::zero()), Frames::zero());
}

#[test]
fn a_start_anchor_stays_inside_the_loop() {
    for offset in [0, 1, 999, 1_000, 123_456] {
        let anchor = anchor_at_start(Frames(1_000), Frames(offset));
        assert!(anchor.0 < 1_000, "offset {offset} gave {anchor:?}");
    }
    assert_eq!(anchor_at_start(Frames::zero(), Frames(7)), Frames::zero());
}

#[test]
fn an_anchor_moves_back_within_its_loop() {
    assert_eq!(
        anchor_moved_back(Frames(700), Frames(1_000), 300),
        Frames(400)
    );
    assert_eq!(
        anchor_moved_back(Frames(200), Frames(1_000), 300),
        Frames(900)
    );
    assert_eq!(
        anchor_moved_back(Frames(5_200), Frames(1_000), 40_300),
        Frames(900)
    );
    assert_eq!(
        anchor_moved_back(Frames(u64::MAX), Frames(u64::MAX), u128::from(u64::MAX) + 1),
        Frames(u64::MAX - 1)
    );
    assert_eq!(anchor_moved_back(Frames(5), Frames(0), 3), Frames(0));
}
