use free_loop::ids::{
    column_mask, pad_bit, row_mask, SlotAddr, SlotId, TrackId, SLOT_COUNT, TRACK_COUNT,
};


#[test]
fn ids_reject_out_of_range() {
    assert!(TrackId::new(7).is_ok());
    assert!(TrackId::new(8).is_err());
    assert!(SlotId::new(7).is_ok());
    assert!(SlotId::new(8).is_err());
}

#[test]
fn iterators_cover_the_whole_grid() {
    assert_eq!(TrackId::all().len(), TRACK_COUNT);
    assert_eq!(SlotId::all().len(), SLOT_COUNT);
    assert_eq!(SlotAddr::all().len(), TRACK_COUNT * SLOT_COUNT);
}

#[test]
fn every_pad_has_its_own_bit() {
    let mut seen = 0;
    for addr in SlotAddr::all() {
        let bit = pad_bit(addr);
        assert_eq!(seen & bit, 0, "{addr:?} collides");
        seen |= bit;
    }
    assert_eq!(seen.count_ones(), 64);
}

#[test]
fn a_row_and_a_column_meet_at_one_pad() {
    let track = TrackId::new(3).unwrap();
    let slot = SlotId::new(5).unwrap();

    let row = row_mask(track);
    let column = column_mask(slot);
    assert_eq!(row.count_ones(), 8);
    assert_eq!(column.count_ones(), 8);
    assert_eq!(row & column, pad_bit(SlotAddr::new(track, slot)));
}

#[test]
fn rows_cover_the_grid_and_do_not_overlap() {
    let all = TrackId::all().into_iter().fold(0_u64, |mask, t| mask | row_mask(t));
    assert_eq!(all, u64::MAX);

    let summed: u32 = TrackId::all().into_iter().map(|t| row_mask(t).count_ones()).sum();
    assert_eq!(summed, 64, "rows overlap");
}

#[test]
fn addresses_are_unique() {
    let mut seen = std::collections::HashSet::new();
    for addr in SlotAddr::all() {
        assert!(seen.insert(addr), "duplicate address {addr:?}");
    }
}
