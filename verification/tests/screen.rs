use free_loop::ids::{SlotAddr, SlotId, TrackId, SLOT_COUNT, TRACK_COUNT};
use free_loop::screen::{exits, role, Button, Mode, Role};
use free_loop::surface::{
    Control, INPUT_SIDE, MUTE_SIDE, PAUSE_SIDE, SETTINGS_SIDE, SIDE_COUNT, SOLO_SIDE, VOLUME_SIDE,
};

/// Every way out of a screen.
fn ways(mode: Mode) -> Vec<Button> {
    let (first, second) = exits(mode);
    first.into_iter().chain(second).collect()
}

/// Every screen there is, with a pad for the two that carry one.
fn every_mode() -> Vec<Mode> {
    let pad = addr(0, 0);
    vec![
        Mode::Perform,
        Mode::SavePicker,
        Mode::LoadPicker,
        Mode::Mute,
        Mode::Solo,
        Mode::Volume,
        Mode::Pan,
        Mode::Input,
        Mode::Settings,
        Mode::TimeSignature,
        Mode::Subdivision,
        Mode::ConfirmSave(pad),
        Mode::ConfirmLoad(pad),
    ]
}

fn addr(track: u8, slot: u8) -> SlotAddr {
    SlotAddr::new(TrackId::new(track).unwrap(), SlotId::new(slot).unwrap())
}

/// Every button the surface has.
fn every_button() -> Vec<Button> {
    let mut buttons = Vec::new();
    for track in 0..TRACK_COUNT {
        for slot in 0..SLOT_COUNT {
            let track = u8::try_from(track).unwrap();
            let slot = u8::try_from(slot).unwrap();
            buttons.push(Button::Grid(addr(track, slot)));
        }
    }
    for control in Control::all() {
        buttons.push(Button::Top(control));
    }
    for index in 0..SIDE_COUNT {
        buttons.push(Button::Side(index));
    }
    buttons
}

#[test]
fn every_screen_but_the_loops_says_how_to_leave_it() {
    for mode in every_mode() {
        let ways: Vec<Button> = ways(mode);
        if mode == Mode::Perform {
            assert!(ways.is_empty(), "the loops are not a screen to leave");
        } else {
            assert!(!ways.is_empty(), "{mode:?} has no way out");
        }
    }
}

#[test]
fn a_way_out_is_never_inert() {
    for mode in every_mode() {
        for button in ways(mode) {
            assert_ne!(
                role(mode, button),
                Role::Inert,
                "{mode:?} leaves by a button that does nothing"
            );
        }
    }
}

#[test]
fn the_transport_answers_on_every_screen() {
    for mode in every_mode() {
        assert_eq!(
            role(mode, Button::Side(PAUSE_SIDE)),
            Role::Transport,
            "{mode:?}"
        );
    }
}

#[test]
fn one_screen_cannot_be_reached_from_another() {
    let screens = [
        Button::Side(VOLUME_SIDE),
        Button::Side(INPUT_SIDE),
        Button::Side(SETTINGS_SIDE),
        Button::Side(MUTE_SIDE),
        Button::Side(SOLO_SIDE),
    ];
    for mode in every_mode()
        .into_iter()
        .filter(|mode| *mode != Mode::Perform)
    {
        let ways: Vec<Button> = ways(mode);
        for button in screens {
            if ways.contains(&button) {
                continue;
            }
            assert_eq!(
                role(mode, button),
                Role::Inert,
                "{mode:?} can still reach another screen by {button:?}"
            );
        }
    }
}

#[test]
fn the_loops_screen_binds_every_button_it_uses() {
    // Nothing on the loops is inert except the side buttons that were never bound.
    let bound = |button| role(Mode::Perform, button) != Role::Inert;
    for control in Control::all() {
        assert!(bound(Button::Top(control)), "{control:?}");
    }
    for index in [
        VOLUME_SIDE,
        INPUT_SIDE,
        SETTINGS_SIDE,
        MUTE_SIDE,
        SOLO_SIDE,
        PAUSE_SIDE,
    ] {
        assert!(bound(Button::Side(index)), "side {index}");
    }
    assert!(bound(Button::Grid(addr(3, 4))));
}

#[test]
fn a_role_is_the_same_however_often_it_is_asked() {
    for mode in every_mode() {
        for button in every_button() {
            assert_eq!(role(mode, button), role(mode, button));
        }
    }
}
