//! Devices as they come, go and offer themselves.

use free_loop::capture::{frames_of, samples_to_take};
use free_loop::device::{
    find_candidate, find_named, is_negotiable, negotiate, next_block, rate_penalty, ring_frames,
    round_trip, starved, AudioConfig, AudioError, BufferSize, Candidate, ConfigRange, DeviceWatch,
    Direction, ListedDevice, SampleFormat, SupportedBufferSize, ASSUMED_BLOCK_FRAMES,
    RETRY_INTERVAL, SECOND,
};
use free_loop::engine::{Engine, EngineConfig, EngineError};
use free_loop::time::{SampleRate, TimeError, TimeSignature};

fn range(channels: u16, rate: u32, format: SampleFormat) -> ConfigRange {
    ConfigRange {
        channels,
        min_sample_rate: rate,
        max_sample_rate: rate,
        buffer_size: SupportedBufferSize::Range { min: 64, max: 1_024 },
        sample_format: format,
    }
}

fn device(name: &str, input: bool, output: bool) -> ListedDevice {
    ListedDevice {
        name: name.to_string(),
        input,
        output,
    }
}

#[test]
fn a_device_is_found_by_part_of_its_name_whatever_the_case() {
    let devices = [
        device("Built-in Microphone", true, false),
        device("Scarlett Solo USB", true, true),
        device("STUDIO ÜBER", false, true),
    ];
    assert_eq!(find_named(&devices, "scarlett", Direction::Input), Some(1));
    assert_eq!(find_named(&devices, "SOLO usb", Direction::Output), Some(1));
    assert_eq!(find_named(&devices, "built-IN", Direction::Output), None);
    assert_eq!(find_named(&devices, "über", Direction::Output), Some(2));
    assert_eq!(find_named(&devices, "", Direction::Output), Some(1));
}

#[test]
fn the_first_candidate_that_suits_is_taken() {
    let candidate = |name: &str, usable: bool| Candidate {
        name: name.to_string(),
        usable,
    };
    let candidates = vec![
        candidate("scarlett solo", false),
        candidate("built-in", true),
        candidate("scarlett 2i2", true),
        candidate("scarlett 4i4", true),
    ];
    assert_eq!(find_candidate(&candidates, "scarlett"), Some(2));
    assert_eq!(find_candidate(&candidates, "Scarlett"), None, "as it stands");
    assert_eq!(find_candidate(&candidates, "4i4"), Some(3));
    assert_eq!(find_candidate(&Vec::new(), ""), None);
}

#[test]
fn two_devices_agree_on_one_rate() {
    let mut config = AudioConfig::new();
    config.buffer_frames = Some(16);
    config.capture_offset = Some(9);
    let outputs = [range(2, 48_000, SampleFormat::F32)];
    let inputs = [
        range(32, 44_100, SampleFormat::F32),
        range(32, 48_000, SampleFormat::I16),
    ];
    let plan = negotiate(&config, &outputs, &inputs).unwrap();
    assert_eq!(plan.negotiated.sample_rate, 48_000);
    assert_eq!(plan.negotiated.channels, 2);
    assert_eq!(plan.negotiated.input_channels, 32);
    assert_eq!(plan.negotiated.capture_channels, 8);
    assert_eq!(plan.negotiated.input_format, SampleFormat::I16);
    assert_eq!(plan.negotiated.cushion_frames, 32);
    assert_eq!(plan.negotiated.added_latency_frames(), 32);
    assert_eq!(plan.negotiated.capture_offset, Some(9));
    assert_eq!(plan.output_config.buffer_size, BufferSize::Fixed(64));
    assert_eq!(plan.input_config.channels, 32);
}

#[test]
fn devices_that_cannot_agree_are_refused() {
    let config = AudioConfig::new();
    let fine = [range(2, 48_000, SampleFormat::F32)];
    let other = [range(2, 44_100, SampleFormat::F32)];
    let odd = [range(2, 48_000, SampleFormat::F64)];
    let refused = |outputs: &[ConfigRange], inputs: &[ConfigRange]| {
        negotiate(&config, outputs, inputs).unwrap_err().message()
    };
    assert_eq!(
        refused(&odd, &fine),
        "the output device offers no usable configuration"
    );
    assert_eq!(
        refused(&fine, &odd),
        "the input device offers no usable configuration"
    );
    assert_eq!(
        refused(&fine, &other),
        "input runs at 44100 Hz but output runs at 48000 Hz"
    );
}

#[test]
fn each_failure_of_a_device_says_what_happened() {
    assert_eq!(
        AudioError::NoDevice(Direction::Input).message(),
        "no default input device"
    );
    assert_eq!(
        AudioError::DeviceNotFound("Scarlett".to_string()).message(),
        "no device matching \"Scarlett\""
    );
    assert_eq!(
        AudioError::UnsupportedFormat(SampleFormat::I24).message(),
        "sample format I24 is not supported"
    );
    let changed = AudioError::ConfigurationChanged {
        wanted_rate: 48_000,
        found_rate: 44_100,
        wanted_channels: 2,
        found_channels: 4,
    };
    assert_eq!(
        changed.message(),
        "device returned at 44100 Hz with 4 channels, but the session is 48000 Hz with 2"
    );
    assert_eq!(AudioError::Host("busy".to_string()).message(), "busy");
}

#[test]
fn a_lost_device_is_looked_for_until_it_is_back() {
    let mut watch = DeviceWatch::new();
    assert!(watch.is_running());
    assert!(!watch.check_due(RETRY_INTERVAL - 1));
    assert!(watch.check_due(RETRY_INTERVAL));
    assert!(!watch.check_due(RETRY_INTERVAL + 1), "not again so soon");

    assert!(!watch.lost(0, false, 0, 48_000, true), "all is well");
    assert!(watch.lost(5 * SECOND, false, 48_000, 48_000, true));
    assert!(!watch.is_running());
    assert!(!watch.retry_due(5 * SECOND + 1), "too soon");
    assert!(watch.retry_due(6 * SECOND));
    assert!(!watch.retry_due(6 * SECOND + 1));

    assert!(watch.refused("not there".to_string()));
    assert!(!watch.refused("not there".to_string()), "said once");
    assert!(watch.refused("wrong rate".to_string()), "another reason");
    watch.back();
    assert!(watch.is_running());
    assert!(watch.lost(9 * SECOND, true, 0, 48_000, true), "flagged");
    watch.back();
    assert!(watch.lost(9 * SECOND, false, 0, 48_000, false), "not listed");
}

#[test]
fn the_round_trip_is_pinned_or_added_up() {
    assert_eq!(round_trip(Some(77), 1, 2, 3), 77);
    assert_eq!(round_trip(None, 1, 2, 3), 6);
    assert_eq!(round_trip(None, u32::MAX, 2, 3), u32::MAX);
}

#[test]
fn a_read_takes_whole_frames_once_the_cushion_is_there() {
    assert_eq!(samples_to_take(false, 10, 2, 9, 100), 0);
    assert_eq!(samples_to_take(false, 10, 2, 11, 100), 10);
    assert_eq!(samples_to_take(true, 10, 2, 5, 100), 4);
    assert_eq!(samples_to_take(true, 0, 2, 50, 7), 6);
    assert_eq!(samples_to_take(true, 0, 0, 50, 7), 0);
}

#[test]
fn a_frame_is_counted_once_all_of_it_is_there() {
    assert_eq!(frames_of(7, 2), 3);
    assert_eq!(frames_of(1, 2), 0);
    assert_eq!(frames_of(7, 0), 0);
}

#[test]
fn an_engine_that_cannot_run_is_refused() {
    let refused = |change: fn(&mut EngineConfig)| {
        let Ok(mut config) = EngineConfig::stereo_48k() else {
            panic!("the defaults were refused");
        };
        config.segment_pool = 1;
        change(&mut config);
        match Engine::new(config, 0.0_f32) {
            Ok(_) => None,
            Err(error) => Some(error),
        }
    };
    assert_eq!(refused(|_| {}), None);
    assert_eq!(refused(|c| c.channels = 0), Some(EngineError::ZeroChannels));
    assert_eq!(
        refused(|c| c.capture_channels = 0),
        Some(EngineError::ZeroCaptureChannels)
    );
    assert_eq!(refused(|c| c.segment_pool = 0), Some(EngineError::EmptyPool));
    assert_eq!(
        refused(|c| {
            c.sample_rate = SampleRate::new(u32::MAX).unwrap();
            c.time_signature = TimeSignature::new(u32::MAX, 1).unwrap();
        }),
        Some(EngineError::Time(TimeError::BarLengthUnrepresentable))
    );
    assert_eq!(
        EngineError::Time(TimeError::ZeroSampleRate).message(),
        "sample rate must be greater than zero"
    );
}

#[test]
fn the_capture_ring_holds_the_cushion_and_four_blocks() {
    let mut config = AudioConfig::new();
    config.buffer_frames = Some(128);
    config.cushion_blocks = 3;
    let ranges = [range(2, 48_000, SampleFormat::F32)];
    let mut negotiated = negotiate(&config, &ranges, &ranges).unwrap().negotiated;
    assert_eq!(ring_frames(&negotiated), 3 * 128 + 4 * 128);

    negotiated.buffer_frames = None;
    assert_eq!(
        ring_frames(&negotiated),
        3 * 128 + 4 * ASSUMED_BLOCK_FRAMES as usize
    );
}

#[test]
fn a_buffer_is_cut_into_blocks_no_longer_than_the_most() {
    assert_eq!(next_block(9_000, 8_192), 8_192);
    assert_eq!(next_block(808, 8_192), 808);
    assert_eq!(next_block(0, 8_192), 0);
}

#[test]
fn frames_without_capture_add_up_until_some_arrives() {
    assert_eq!(starved(100, 64, 0), 164);
    assert_eq!(starved(100, 64, 1), 0);
    assert_eq!(starved(100, 0, 0), 0);
    assert_eq!(starved(u32::MAX, 64, 0), 63, "the count wraps");
}

#[test]
fn only_ranges_that_are_used_have_to_run_up() {
    let mut config = AudioConfig::new();
    config.sample_rate = None;
    config.buffer_frames = None;
    let up = [range(2, 48_000, SampleFormat::F32)];
    let mut down = [range(2, 48_000, SampleFormat::F32)];
    down[0].min_sample_rate = 96_000;
    down[0].buffer_size = SupportedBufferSize::Range { min: 9, max: 8 };
    assert!(is_negotiable(&config, &down, &up), "nothing is held to it");
    assert!(!is_negotiable(&config, &up, &down), "the input follows");

    config.sample_rate = Some(48_000);
    assert!(!is_negotiable(&config, &down, &up));
    down[0].sample_format = SampleFormat::F64;
    assert!(is_negotiable(&config, &down, &up), "not a usable format");

    let mut blocks = up;
    blocks[0].buffer_size = SupportedBufferSize::Range { min: 9, max: 8 };
    assert!(is_negotiable(&config, &blocks, &up));
    config.buffer_frames = Some(64);
    assert!(!is_negotiable(&config, &blocks, &up));
}

#[test]
fn the_preferred_rates_rank_first_and_then_the_nearest() {
    assert_eq!(rate_penalty(48_000, None), 0);
    assert_eq!(rate_penalty(44_100, None), 1);
    assert_eq!(rate_penalty(48_001, None), 3);
    assert_eq!(rate_penalty(96_000, None), 48_002);
    assert!(rate_penalty(88_200, None) < rate_penalty(96_000, None));
    assert_eq!(rate_penalty(44_100, Some(48_000)), 3_900);
    assert_eq!(rate_penalty(96_000, Some(48_000)), 48_000);
}
