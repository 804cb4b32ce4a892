use core::time::Duration;

use free_loop::device::{
    buffer_size, choose_config, cushion_frames, frames_in, BufferSize, ConfigRange, SampleFormat,
    SupportedBufferSize,
};

fn range(
    channels: u16,
    min: u32,
    max: u32,
    format: SampleFormat,
) -> ConfigRange {
    ConfigRange {
        channels,
        min_sample_rate: min,
        max_sample_rate: max,
        buffer_size: SupportedBufferSize::Range { min: 64, max: 4096 },
        sample_format: format,
    }
}

#[test]
fn f32_wins_when_everything_else_is_equal() {
    let ranges = [
        range(2, 48_000, 48_000, SampleFormat::I16),
        range(2, 48_000, 48_000, SampleFormat::F32),
    ];
    let chosen = choose_config(&ranges, None, Some(2)).unwrap();
    assert_eq!(chosen.sample_format, SampleFormat::F32);
}

#[test]
fn the_requested_rate_is_taken_when_the_device_covers_it() {
    let ranges = [range(2, 44_100, 96_000, SampleFormat::F32)];
    assert_eq!(
        choose_config(&ranges, Some(88_200), None).unwrap().sample_rate,
        88_200
    );
}

#[test]
fn a_rate_outside_the_range_clamps_rather_than_failing() {
    let ranges = [range(2, 44_100, 48_000, SampleFormat::F32)];
    assert_eq!(
        choose_config(&ranges, Some(192_000), None).unwrap().sample_rate,
        48_000
    );
}

#[test]
fn without_a_request_48k_is_preferred_then_44k1() {
    let wide = [range(2, 8_000, 96_000, SampleFormat::F32)];
    assert_eq!(choose_config(&wide, None, None).unwrap().sample_rate, 48_000);

    let narrow = [range(2, 8_000, 44_100, SampleFormat::F32)];
    assert_eq!(choose_config(&narrow, None, None).unwrap().sample_rate, 44_100);

    let odd = [range(2, 32_000, 32_000, SampleFormat::F32)];
    assert_eq!(choose_config(&odd, None, None).unwrap().sample_rate, 32_000);
}

/// `CoreAudio` reports one range per discrete rate, so the preference has to work
/// across ranges rather than inside one. Found on a Scarlett Solo, which was landing
/// on 44.1 kHz purely because that range was enumerated first.
#[test]
fn single_rate_ranges_still_prefer_48k() {
    let ranges = [
        range(2, 44_100, 44_100, SampleFormat::F32),
        range(2, 48_000, 48_000, SampleFormat::F32),
    ];
    assert_eq!(choose_config(&ranges, None, None).unwrap().sample_rate, 48_000);

    // Order must not matter.
    let reversed = [ranges[1], ranges[0]];
    assert_eq!(choose_config(&reversed, None, None).unwrap().sample_rate, 48_000);
}

#[test]
fn an_unlisted_rate_loses_to_a_preferred_one() {
    let ranges = [
        range(2, 96_000, 96_000, SampleFormat::F32),
        range(2, 44_100, 44_100, SampleFormat::F32),
    ];
    assert_eq!(choose_config(&ranges, None, None).unwrap().sample_rate, 44_100);
}

#[test]
fn among_unlisted_rates_the_closest_to_48k_wins() {
    let ranges = [
        range(2, 192_000, 192_000, SampleFormat::F32),
        range(2, 32_000, 32_000, SampleFormat::F32),
    ];
    assert_eq!(choose_config(&ranges, None, None).unwrap().sample_rate, 32_000);
}

#[test]
fn an_explicit_request_still_outranks_the_preference() {
    let ranges = [
        range(2, 48_000, 48_000, SampleFormat::F32),
        range(2, 44_100, 44_100, SampleFormat::F32),
    ];
    assert_eq!(
        choose_config(&ranges, Some(44_100), None).unwrap().sample_rate,
        44_100
    );
}

#[test]
fn extra_channels_beat_missing_ones() {
    let ranges = [
        range(1, 48_000, 48_000, SampleFormat::F32),
        range(8, 48_000, 48_000, SampleFormat::F32),
    ];
    assert_eq!(choose_config(&ranges, None, Some(2)).unwrap().channels, 8);
}

#[test]
fn an_exact_channel_match_is_preferred_to_a_wider_device() {
    let ranges = [
        range(8, 48_000, 48_000, SampleFormat::F32),
        range(2, 48_000, 48_000, SampleFormat::F32),
    ];
    assert_eq!(choose_config(&ranges, None, Some(2)).unwrap().channels, 2);
}

#[test]
fn the_channel_fit_outranks_the_sample_format() {
    let ranges = [
        range(1, 48_000, 48_000, SampleFormat::F32),
        range(2, 48_000, 48_000, SampleFormat::I16),
    ];
    let chosen = choose_config(&ranges, None, Some(2)).unwrap();
    assert_eq!(chosen.channels, 2);
    assert_eq!(chosen.sample_format, SampleFormat::I16);
}

#[test]
fn formats_this_crate_cannot_convert_are_refused() {
    let ranges = [range(2, 48_000, 48_000, SampleFormat::I24)];
    assert!(choose_config(&ranges, None, None).is_none());
    assert!(choose_config(&[], None, None).is_none());
}

#[test]
fn a_requested_block_size_is_clamped_into_range() {
    let supported = SupportedBufferSize::Range { min: 64, max: 1024 };
    assert_eq!(buffer_size(&supported, Some(256)), BufferSize::Fixed(256));
    assert_eq!(buffer_size(&supported, Some(16)), BufferSize::Fixed(64));
    assert_eq!(buffer_size(&supported, Some(8192)), BufferSize::Fixed(1024));
    assert_eq!(buffer_size(&supported, None), BufferSize::Default);
    assert_eq!(
        buffer_size(&SupportedBufferSize::Unknown, Some(256)),
        BufferSize::Default
    );
}

#[test]
fn driver_durations_become_frames() {
    assert_eq!(frames_in(Duration::ZERO.as_nanos(), 48_000), 0);
    assert_eq!(frames_in(Duration::from_millis(10).as_nanos(), 48_000), 480);
    assert_eq!(frames_in(Duration::from_secs(1).as_nanos(), 44_100), 44_100);
    // Sub-frame durations round down rather than inventing a frame.
    assert_eq!(frames_in(Duration::from_nanos(1).as_nanos(), 48_000), 0);
}

#[test]
fn the_cushion_falls_back_to_an_assumed_block() {
    assert_eq!(cushion_frames(Some(128), 2), 256);
    assert_eq!(cushion_frames(None, 2), 1_024);
    assert_eq!(cushion_frames(Some(0), 2), 2);
}
