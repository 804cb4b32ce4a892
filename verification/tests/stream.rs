use free_loop::device::{
    compatible, find_named, starved_out, AudioError, DeviceList, Direction, ListedDevice,
    Negotiated, SampleFormat, Trouble,
};

fn negotiated(sample_rate: u32, channels: usize) -> Negotiated {
    Negotiated {
        sample_rate,
        channels,
        input_channels: 2,
        input_format: SampleFormat::F32,
        output_format: SampleFormat::F32,
        capture_channels: 2,
        buffer_frames: None,
        cushion_frames: 512,
        capture_offset: None,
    }
}

#[test]
fn the_same_configuration_carries_on() {
    assert!(compatible(negotiated(48_000, 2), negotiated(48_000, 2)).is_ok());
}

#[test]
fn another_rate_is_refused() {
    let error = compatible(negotiated(48_000, 2), negotiated(44_100, 2));
    assert!(matches!(
        error,
        Err(AudioError::ConfigurationChanged {
            wanted_rate: 48_000,
            found_rate: 44_100,
            ..
        })
    ));
}

#[test]
fn another_channel_count_is_refused() {
    let error = compatible(negotiated(48_000, 2), negotiated(48_000, 4));
    assert!(matches!(
        error,
        Err(AudioError::ConfigurationChanged {
            wanted_channels: 2,
            found_channels: 4,
            ..
        })
    ));
}

#[test]
fn the_rest_of_the_configuration_may_differ() {
    let mut found = negotiated(48_000, 2);
    found.input_channels = 8;
    found.input_format = SampleFormat::I16;
    found.cushion_frames = 1_024;
    assert!(
        compatible(negotiated(48_000, 2), found).is_ok(),
        "only the rate and the engine's channel count are fixed"
    );
}

fn listed(name: &str, input: bool, output: bool) -> ListedDevice {
    ListedDevice {
        name: name.to_string(),
        input,
        output,
    }
}

#[test]
fn a_name_matching_nothing_is_a_loss() {
    let devices = [
        listed("Scarlett Solo", true, true),
        listed("Built-in Output", false, true),
    ];
    let wanted = "no such device anywhere";
    assert_eq!(find_named(&devices, wanted, Direction::Output), None);
    assert_eq!(find_named(&devices, wanted, Direction::Input), None);
}

#[test]
fn a_device_the_host_lists_is_not_a_loss() {
    let devices = [
        listed("Built-in Output", false, true),
        listed("Scarlett Solo", true, true),
    ];
    let list = DeviceList::of(&devices);
    assert_eq!(list.outputs, vec!["Built-in Output", "Scarlett Solo"]);
    assert_eq!(list.inputs, vec!["Scarlett Solo"]);
    for (index, name) in list.outputs.iter().enumerate() {
        assert_eq!(
            find_named(&devices, name, Direction::Output),
            Some(index),
            "{name} is right there"
        );
    }
}

#[test]
fn a_short_gap_in_the_capture_is_not_a_loss() {
    assert!(!starved_out(0, 48_000));
    assert!(
        !starved_out(47_999, 48_000),
        "a hiccup, not an unplugged jack"
    );
}

#[test]
fn capture_silent_for_a_whole_second_is_a_loss() {
    assert!(starved_out(48_000, 48_000));
    assert!(starved_out(96_000, 48_000));
}

#[test]
fn a_missing_device_asks_for_a_rebuild() {
    assert!(Trouble::DeviceNotAvailable.needs_rebuild());
}

#[test]
fn an_invalidated_stream_asks_for_a_rebuild() {
    assert!(Trouble::StreamInvalidated.needs_rebuild());
}

#[test]
fn a_reroute_is_counted_and_left_alone() {
    assert!(
        !Trouble::DeviceChanged.needs_rebuild(),
        "the stream is still working"
    );
}
