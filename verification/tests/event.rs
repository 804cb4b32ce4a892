use free_loop::event::EventKind;


#[test]
fn every_kind_has_its_own_index() {
    for (index, kind) in EventKind::all().iter().enumerate() {
        assert_eq!(kind.index(), index, "{kind:?} is out of place");
    }
}

#[test]
fn a_resync_covers_the_state_the_controller_mirrors() {
    assert!(EventKind::SlotChanged.is_replayed());
    assert!(EventKind::Tempo.is_replayed());
    assert!(EventKind::TempoRejected.is_replayed());
    assert!(!EventKind::Beat.is_replayed(), "the next beat corrects it");
    assert!(!EventKind::Clock.is_replayed(), "the total corrects itself");
}
