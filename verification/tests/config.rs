use free_loop::config::Config;
use free_loop::ids::{LaunchMode, TrackInput};
use free_loop::time::TimeError;

fn config() -> Config {
    Config::new()
}

#[test]
fn the_load_budget_never_falls_below_the_recording_pool() {
    let mut config = config();
    config.engine.segment_pool = 4096;
    config.engine.load_segments = 8;
    assert_eq!(
        config.load_budget(),
        4096,
        "a session recorded to the pool's size has to load back"
    );
}

#[test]
fn the_load_budget_follows_the_recording_pool() {
    let mut config = config();
    config.engine.segment_pool = 4;
    assert_eq!(
        config.load_budget(),
        8_192,
        "a load is bounded on its own, not by the recording pool"
    );
}

#[test]
fn losing_a_device_pauses_unless_told_otherwise() {
    assert!(config().audio.pause_on_disconnect);
}

#[test]
fn an_empty_file_gives_defaults() {
    let config = config();
    assert_eq!(f64::from_bits(config.transport.tempo), 120.0);
    assert_eq!(config.audio.cushion_blocks, 2);
    assert!(config.click.enabled);
    assert!(config.audio.input_device.is_none());
    assert_eq!(f32::from_bits(config.click.level), 0.35);
    assert_eq!(config.transport.max_bars, 32);
    assert_eq!(config.engine.declick_frames, 240);
}

#[test]
fn an_input_channel_becomes_a_mono_source() {
    let mut config = config();
    config.audio.input_channel = Some(1);
    assert_eq!(config.track_input(), TrackInput::Mono(1));
    config.audio.input_channel = Some(256);
    assert_eq!(config.track_input(), TrackInput::Mono(0));
    config.audio.input_channel = None;
    assert_eq!(config.track_input(), TrackInput::Stereo);
}

#[test]
fn an_impossible_tempo_is_refused() {
    let mut config = config();
    config.transport.tempo = 5000.0_f64.to_bits();
    assert!(matches!(
        config.engine(48_000, 2, 2),
        Err(TimeError::TempoOutOfRange)
    ));
}

#[test]
fn an_impossible_time_signature_is_refused() {
    let mut config = config();
    config.transport.beat_unit = 3;
    assert!(config.time_signature().is_err());
    assert!(matches!(
        config.engine(48_000, 2, 2),
        Err(TimeError::InvalidTimeSignature)
    ));
}

#[test]
fn a_rate_of_nothing_is_refused_first() {
    let mut config = config();
    config.transport.beat_unit = 3;
    assert!(matches!(
        config.engine(0, 2, 2),
        Err(TimeError::ZeroSampleRate)
    ));
}

#[test]
fn the_engine_gets_what_the_file_says() {
    let mut config = config();
    config.transport.restart_clips = true;
    config.transport.tempo = 90.0_f64.to_bits();
    let engine = config.engine(44_100, 2, 4).unwrap();
    assert_eq!(engine.sample_rate.hz(), 44_100);
    assert_eq!(f64::from_bits(engine.tempo.bpm()), 90.0);
    assert_eq!(engine.capture_channels, 4);
    assert_eq!(engine.segment_pool, 2_048);
    assert_eq!(engine.launch_mode, LaunchMode::Restart);
    assert_eq!(engine.declick.0, 240);
}

#[test]
fn the_devices_get_what_the_file_says() {
    let mut config = config();
    config.audio.output_device = Some("Scarlett".to_string());
    config.audio.capture_offset_frames = Some(77);
    let audio = config.audio();
    assert_eq!(audio.output_device.as_deref(), Some("Scarlett"));
    assert_eq!(audio.input_device, None);
    assert_eq!(audio.capture_offset, Some(77));
    assert_eq!(audio.cushion_blocks, 2);
}
