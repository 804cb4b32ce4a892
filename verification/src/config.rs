//! The settings the looper starts with: which jack the instrument is in, what the interface is
//! called, how big its blocks are.

use vstd::prelude::*;

use crate::click::ClickConfig;
use crate::device::AudioConfig;
use crate::engine::{EngineConfig, DEFAULT_DECLICK};
use crate::ids::{LaunchMode, TrackInput};
use crate::screen::said;
use crate::time::{
    power_of_two, Frames, SampleRate, Tempo, TimeError, TimeSignature, MAX_BPM, MIN_BPM,
};

verus! {

/// Audio device settings.
#[derive(Debug)]
pub struct Audio {
    /// Substring of the input device name. Empty uses the default device.
    pub input_device: Option<String>,
    /// Substring of the output device name. Empty uses the default device.
    pub output_device: Option<String>,
    /// Rate to request. Empty takes the device's preference.
    pub sample_rate: Option<u32>,
    /// Block size to request. Empty leaves it to the device.
    pub buffer_frames: Option<u32>,
    /// Channels to request. Empty asks for stereo.
    pub channels: Option<u16>,
    /// Input channel every track starts recording, changeable from the grid.
    ///
    /// Empty starts them on the whole input, which is right for a stereo source. Set it
    /// when one instrument is in one jack of a multi-input interface.
    pub input_channel: Option<usize>,
    /// Blocks of capture buffered before the output starts consuming.
    pub cushion_blocks: u32,
    /// Round-trip latency to compensate for, in frames.
    ///
    /// Empty measures it from the driver.
    pub capture_offset_frames: Option<u32>,
    /// Whether losing a device freezes the transport.
    ///
    /// Off carries on where it left off as soon as the device is back.
    pub pause_on_disconnect: bool,
}

/// Musical time.
#[derive(Debug, Clone, Copy, PartialEq, Eq, Structural)]
pub struct Transport {
    /// Beats per minute, as the bits of a double. Locked once a clip exists.
    pub tempo: u64,
    /// Beats in a bar.
    pub beats_per_bar: u32,
    /// Note value that gets the beat.
    pub beat_unit: u32,
    /// Longest recording allowed, in bars.
    pub max_bars: u32,
    /// Whether launching a clip plays it from its start rather than from wherever the
    /// transport has reached.
    pub restart_clips: bool,
}

/// Engine sizing.
#[derive(Debug, Clone, Copy, PartialEq, Eq, Structural)]
pub struct Engine {
    /// Segments to allocate. The ceiling on total recorded audio, about 1.4 s and half a
    /// megabyte each, shared across every pad.
    pub segment_pool: usize,
    /// Frames a level takes to travel the full gain range. 5 ms at 48 kHz.
    pub declick_frames: u64,
    /// Segments a loaded session may hold, about 1.4 s and half a megabyte each.
    ///
    /// Separate from `segment_pool`: a load brings its own storage rather than drawing on the
    /// recording pool, so a session built up over several record and load passes is normally
    /// larger than the pool ever held at once. A ceiling rather than a reservation, so it only
    /// stops a file claiming more than is sensible.
    pub load_segments: usize,
}

/// Click settings.
#[derive(Debug, Clone, Copy, PartialEq, Eq, Structural)]
pub struct Click {
    /// Whether the click sounds at startup.
    pub enabled: bool,
    /// Peak amplitude, from nothing to one, as the bits of a single precision number.
    pub level: u32,
}

/// The whole of the settings.
#[derive(Debug)]
pub struct Config {
    /// Audio device settings.
    pub audio: Audio,
    /// Musical time.
    pub transport: Transport,
    /// Engine sizing.
    pub engine: Engine,
    /// Click settings.
    pub click: Click,
}

/// The input every track starts on, given the jack an instrument is in.
pub open spec fn starting_input(channel: Option<usize>) -> TrackInput {
    match channel {
        Some(channel) => TrackInput::Mono(
            if channel <= u8::MAX {
                channel as u8
            } else {
                0
            },
        ),
        None => TrackInput::Stereo,
    }
}

impl Config {
    /// Everything at its default.
    pub fn new() -> (r: Self)
        ensures
            r.audio.input_device is None,
            r.audio.output_device is None,
            r.audio.sample_rate is None,
            r.audio.buffer_frames is None,
            r.audio.channels is None,
            r.audio.input_channel is None,
            r.audio.cushion_blocks == 2,
            r.audio.capture_offset_frames is None,
            r.audio.pause_on_disconnect,
            r.transport == (Transport {
                tempo: 0x405E_0000_0000_0000,
                beats_per_bar: 4,
                beat_unit: 4,
                max_bars: 32,
                restart_clips: false,
            }),
            r.engine == (Engine {
                segment_pool: 2_048,
                declick_frames: DEFAULT_DECLICK,
                load_segments: 8_192,
            }),
            r.click == (Click { enabled: true, level: 0x3EB3_3333 }),
    {
        Config {
            audio: Audio {
                input_device: None,
                output_device: None,
                sample_rate: None,
                buffer_frames: None,
                channels: None,
                input_channel: None,
                cushion_blocks: 2,
                capture_offset_frames: None,
                pause_on_disconnect: true,
            },
            transport: Transport {
                tempo: 0x405E_0000_0000_0000,
                beats_per_bar: 4,
                beat_unit: 4,
                max_bars: 32,
                restart_clips: false,
            },
            engine: Engine {
                segment_pool: 2_048,
                declick_frames: DEFAULT_DECLICK,
                load_segments: 8_192,
            },
            click: Click { enabled: true, level: 0x3EB3_3333 },
        }
    }

    /// The device settings this config asks for.
    pub fn audio(&self) -> (r: AudioConfig)
        ensures
            said(r.input_device) == said(self.audio.input_device),
            said(r.output_device) == said(self.audio.output_device),
            r.sample_rate == self.audio.sample_rate,
            r.buffer_frames == self.audio.buffer_frames,
            r.channels == self.audio.channels,
            r.cushion_blocks == self.audio.cushion_blocks,
            r.capture_offset == self.audio.capture_offset_frames,
    {
        AudioConfig {
            input_device: copy_name(&self.audio.input_device),
            output_device: copy_name(&self.audio.output_device),
            sample_rate: self.audio.sample_rate,
            buffer_frames: self.audio.buffer_frames,
            channels: self.audio.channels,
            cushion_blocks: self.audio.cushion_blocks,
            capture_offset: self.audio.capture_offset_frames,
        }
    }

    /// The most segments a loaded session may hold.
    ///
    /// Never below `segment_pool`: a session can be recorded up to the pool's size, and one
    /// that cannot be loaded back is worse than one that was never allowed.
    ///
    /// Counted the way the loader allocates: one buffer per clip, each rounded up to whole
    /// segments.
    pub fn load_budget(&self) -> (r: usize)
        ensures
            r == (if self.engine.load_segments < self.engine.segment_pool {
                self.engine.segment_pool
            } else {
                self.engine.load_segments
            }),
    {
        if self.engine.load_segments < self.engine.segment_pool {
            self.engine.segment_pool
        } else {
            self.engine.load_segments
        }
    }

    /// Where every track's clips start out being anchored.
    pub fn launch_mode(&self) -> (r: LaunchMode)
        ensures
            r == (if self.transport.restart_clips {
                LaunchMode::Restart
            } else {
                LaunchMode::Follow
            }),
    {
        if self.transport.restart_clips {
            LaunchMode::Restart
        } else {
            LaunchMode::Follow
        }
    }

    /// The input every track starts on.
    pub fn track_input(&self) -> (r: TrackInput)
        ensures
            r == starting_input(self.audio.input_channel),
    {
        match self.audio.input_channel {
            Some(channel) => TrackInput::Mono(
                if channel <= u8::MAX as usize {
                    channel as u8
                } else {
                    0
                },
            ),
            None => TrackInput::Stereo,
        }
    }

    /// The time signature this config asks for.
    ///
    /// # Errors
    ///
    /// [`TimeError`] if the signature is not musically meaningful.
    pub fn time_signature(&self) -> (r: Result<TimeSignature, TimeError>)
        ensures
            r is Ok <==> self.transport.beats_per_bar > 0 && power_of_two(
                self.transport.beat_unit as int,
            ),
            r is Ok ==> r->Ok_0 == TimeSignature::of(
                self.transport.beats_per_bar as int,
                self.transport.beat_unit as int,
            ),
            r is Err ==> r->Err_0 == TimeError::InvalidTimeSignature,
    {
        TimeSignature::new(self.transport.beats_per_bar, self.transport.beat_unit)
    }

    /// The engine settings, given what the devices agreed on.
    ///
    /// # Errors
    ///
    /// [`TimeError`] if a musical value is out of range.
    pub fn engine(&self, sample_rate: u32, channels: usize, capture_channels: usize) -> (r: Result<
        EngineConfig,
        TimeError,
    >)
        ensures
            r is Err ==> r->Err_0 == (if sample_rate == 0 {
                TimeError::ZeroSampleRate
            } else if !(MIN_BPM <= self.transport.tempo <= MAX_BPM) {
                TimeError::TempoOutOfRange
            } else {
                TimeError::InvalidTimeSignature
            }),
            r is Ok <==> sample_rate > 0 && MIN_BPM <= self.transport.tempo <= MAX_BPM
                && self.transport.beats_per_bar > 0 && power_of_two(
                self.transport.beat_unit as int,
            ),
            r is Ok ==> {
                let config = r->Ok_0;
                &&& config.sample_rate.rate() == sample_rate
                &&& config.tempo.bits() == self.transport.tempo
                &&& config.time_signature == TimeSignature::of(
                    self.transport.beats_per_bar as int,
                    self.transport.beat_unit as int,
                )
                &&& config.channels == channels
                &&& config.capture_channels == capture_channels
                &&& config.segment_pool == self.engine.segment_pool
                &&& config.declick.0 == self.engine.declick_frames
                &&& config.input == starting_input(self.audio.input_channel)
                &&& config.launch_mode is Restart <==> self.transport.restart_clips
                &&& config.capture_offset.0 == 0
                &&& config.click.enabled == self.click.enabled
                &&& config.click.level == self.click.level
            },
    {
        let sample_rate: SampleRate = match SampleRate::new(sample_rate) {
            Ok(sample_rate) => sample_rate,
            Err(error) => {
                return Err(error);
            },
        };
        let tempo: Tempo = match Tempo::new(self.transport.tempo) {
            Ok(tempo) => tempo,
            Err(error) => {
                return Err(error);
            },
        };
        let time_signature: TimeSignature = match self.time_signature() {
            Ok(time_signature) => time_signature,
            Err(error) => {
                return Err(error);
            },
        };
        Ok(
            EngineConfig {
                sample_rate,
                tempo,
                time_signature,
                channels,
                capture_channels,
                segment_pool: self.engine.segment_pool,
                declick: Frames(self.engine.declick_frames),
                input: self.track_input(),
                launch_mode: self.launch_mode(),
                // Replaced by what the driver reports once the streams are running.
                capture_offset: Frames(0),
                click: ClickConfig { enabled: self.click.enabled, level: self.click.level },
            },
        )
    }
}

fn copy_name(name: &Option<String>) -> (r: Option<String>)
    ensures
        said(r) == said(*name),
{
    match name {
        Some(name) => Some(name.clone()),
        None => None,
    }
}

} // verus!
