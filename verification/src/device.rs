//! Choosing a stream configuration from what a device offers, and noticing devices come and go.

use vstd::prelude::*;
use vstd::string::*;

use crate::ids::INPUT_CHANNELS;
use crate::text::{decimal, digits};

verus! {

/// A span of time, or a moment counted from the start of the program, in nanoseconds.
pub type Nanos = u128;

/// The longest span of time that can be counted: the most seconds 64 bits hold, and all but a
/// nanosecond of another.
pub const LONGEST: Nanos = 18_446_744_073_709_551_615_999_999_999;

/// One second.
pub const SECOND: Nanos = 1_000_000_000;

/// How long to wait between attempts to reopen a device that went away.
pub const RETRY_INTERVAL: Nanos = 1_000_000_000;

/// Sample rate preferred when the caller does not ask for one.
pub const PREFERRED_RATE: u32 = 48_000;

/// Sample rate preferred after that one.
pub const SECOND_RATE: u32 = 44_100;

/// Channel count assumed when the caller does not ask for one.
pub const DEFAULT_CHANNELS: u16 = 2;

/// Block size assumed when the device will not say what it uses.
pub const ASSUMED_BLOCK_FRAMES: u32 = 512;

/// How samples are encoded by a device.
#[derive(Debug, Clone, Copy, PartialEq, Eq, Structural)]
pub enum SampleFormat {
    I8,
    I16,
    I24,
    I32,
    I64,
    U8,
    U16,
    U24,
    U32,
    U64,
    F32,
    F64,
    DsdU8,
    DsdU16,
    DsdU32,
}

impl SampleFormat {
    /// What to call it.
    pub open spec fn called(self) -> Seq<char> {
        match self {
            SampleFormat::I8 => "I8"@,
            SampleFormat::I16 => "I16"@,
            SampleFormat::I24 => "I24"@,
            SampleFormat::I32 => "I32"@,
            SampleFormat::I64 => "I64"@,
            SampleFormat::U8 => "U8"@,
            SampleFormat::U16 => "U16"@,
            SampleFormat::U24 => "U24"@,
            SampleFormat::U32 => "U32"@,
            SampleFormat::U64 => "U64"@,
            SampleFormat::F32 => "F32"@,
            SampleFormat::F64 => "F64"@,
            SampleFormat::DsdU8 => "DsdU8"@,
            SampleFormat::DsdU16 => "DsdU16"@,
            SampleFormat::DsdU32 => "DsdU32"@,
        }
    }

    /// What to call it.
    pub fn name(self) -> (r: &'static str)
        ensures
            r@ == self.called(),
    {
        match self {
            SampleFormat::I8 => "I8",
            SampleFormat::I16 => "I16",
            SampleFormat::I24 => "I24",
            SampleFormat::I32 => "I32",
            SampleFormat::I64 => "I64",
            SampleFormat::U8 => "U8",
            SampleFormat::U16 => "U16",
            SampleFormat::U24 => "U24",
            SampleFormat::U32 => "U32",
            SampleFormat::U64 => "U64",
            SampleFormat::F32 => "F32",
            SampleFormat::F64 => "F64",
            SampleFormat::DsdU8 => "DsdU8",
            SampleFormat::DsdU16 => "DsdU16",
            SampleFormat::DsdU32 => "DsdU32",
        }
    }
}

/// Block sizes a device accepts.
#[derive(Debug, Clone, Copy, PartialEq, Eq, Structural)]
pub enum SupportedBufferSize {
    /// Anything from `min` to `max` frames.
    Range {
        min: u32,
        max: u32,
    },
    /// The device will not say.
    Unknown,
}

/// A block size to open a stream with.
#[derive(Debug, Clone, Copy, PartialEq, Eq, Structural)]
pub enum BufferSize {
    /// Whatever the device likes.
    Default,
    /// So many frames.
    Fixed(u32),
}

/// One range of configurations a device offers.
#[derive(Debug, Clone, Copy, PartialEq, Eq, Structural)]
pub struct ConfigRange {
    /// Channels it has.
    pub channels: u16,
    /// Lowest rate.
    pub min_sample_rate: u32,
    /// Highest rate.
    pub max_sample_rate: u32,
    /// Block sizes it accepts.
    pub buffer_size: SupportedBufferSize,
    /// How its samples are encoded.
    pub sample_format: SampleFormat,
}

/// A configuration taken from a range.
#[derive(Debug, Clone, Copy, PartialEq, Eq, Structural)]
pub struct SupportedConfig {
    /// Channels it has.
    pub channels: u16,
    /// Rate it runs at.
    pub sample_rate: u32,
    /// Block sizes it accepts.
    pub buffer_size: SupportedBufferSize,
    /// How its samples are encoded.
    pub sample_format: SampleFormat,
}

/// What to open a stream with.
#[derive(Debug, Clone, Copy, PartialEq, Eq, Structural)]
pub struct StreamConfig {
    /// Channels it has.
    pub channels: u16,
    /// Rate it runs at.
    pub sample_rate: u32,
    /// Block size to ask for.
    pub buffer_size: BufferSize,
}

/// Which way audio goes through a device.
#[derive(Debug, Clone, Copy, PartialEq, Eq, Structural)]
pub enum Direction {
    Input,
    Output,
}

impl Direction {
    /// What to call it.
    pub open spec fn called(self) -> Seq<char> {
        match self {
            Direction::Input => "input"@,
            Direction::Output => "output"@,
        }
    }

    /// What to call it.
    pub fn name(self) -> (r: &'static str)
        ensures
            r@ == self.called(),
    {
        match self {
            Direction::Input => "input",
            Direction::Output => "output",
        }
    }
}

/// Something went wrong reaching the audio hardware.
#[derive(Debug)]
pub enum AudioError {
    /// The host has no default device in this direction.
    NoDevice(Direction),
    /// No device name matched the request.
    DeviceNotFound(String),
    /// The device offered nothing this crate can use.
    NoUsableConfig(Direction),
    /// The two devices could not agree on a rate.
    SampleRateMismatch {
        /// Rate the input settled on.
        input: u32,
        /// Rate the output settled on.
        output: u32,
    },
    /// The device wants a sample format this crate does not convert.
    UnsupportedFormat(SampleFormat),
    /// A device came back offering something the engine was not built for.
    ConfigurationChanged {
        /// Rate the engine was built for.
        wanted_rate: u32,
        /// Rate the device now offers.
        found_rate: u32,
        /// Channels the engine was built for.
        wanted_channels: usize,
        /// Channels the device now offers.
        found_channels: usize,
    },
    /// The device or host reported a failure, in its own words.
    Host(String),
}

/// What to tell the user about a failure.
pub open spec fn audio_message(error: AudioError) -> Seq<char> {
    match error {
        AudioError::NoDevice(direction) => "no default "@ + direction.called() + " device"@,
        AudioError::DeviceNotFound(name) => "no device matching \""@ + name@ + "\""@,
        AudioError::NoUsableConfig(direction) => "the "@ + direction.called()
            + " device offers no usable configuration"@,
        AudioError::SampleRateMismatch { input, output } => "input runs at "@ + digits(input as int)
            + " Hz but output runs at "@ + digits(output as int) + " Hz"@,
        AudioError::UnsupportedFormat(format) => "sample format "@ + format.called()
            + " is not supported"@,
        AudioError::ConfigurationChanged {
            wanted_rate,
            found_rate,
            wanted_channels,
            found_channels,
        } => "device returned at "@ + digits(found_rate as int) + " Hz with "@ + digits(
            found_channels as int,
        ) + " channels, but the session is "@ + digits(wanted_rate as int) + " Hz with "@ + digits(
            wanted_channels as int,
        ),
        AudioError::Host(words) => words@,
    }
}

impl AudioError {
    /// What to tell the user.
    pub fn message(&self) -> (r: String)
        ensures
            r@ == audio_message(*self),
    {
        match self {
            AudioError::NoDevice(direction) => {
                let mut text: String = String::from_str("no default ");
                text.append(direction.name());
                text.append(" device");
                text
            },
            AudioError::DeviceNotFound(name) => {
                let mut text: String = String::from_str("no device matching \"");
                text.append(name.as_str());
                text.append("\"");
                text
            },
            AudioError::NoUsableConfig(direction) => {
                let mut text: String = String::from_str("the ");
                text.append(direction.name());
                text.append(" device offers no usable configuration");
                text
            },
            AudioError::SampleRateMismatch { input, output } => {
                let mut text: String = String::from_str("input runs at ");
                text.append(decimal(*input as u64).as_str());
                text.append(" Hz but output runs at ");
                text.append(decimal(*output as u64).as_str());
                text.append(" Hz");
                text
            },
            AudioError::UnsupportedFormat(format) => {
                let mut text: String = String::from_str("sample format ");
                text.append(format.name());
                text.append(" is not supported");
                text
            },
            AudioError::ConfigurationChanged {
                wanted_rate,
                found_rate,
                wanted_channels,
                found_channels,
            } => {
                let mut text: String = String::from_str("device returned at ");
                text.append(decimal(*found_rate as u64).as_str());
                text.append(" Hz with ");
                text.append(decimal(*found_channels as u64).as_str());
                text.append(" channels, but the session is ");
                text.append(decimal(*wanted_rate as u64).as_str());
                text.append(" Hz with ");
                text.append(decimal(*wanted_channels as u64).as_str());
                text
            },
            AudioError::Host(words) => words.clone(),
        }
    }
}

/// What the caller wants from the audio devices.
#[derive(Debug, Clone)]
pub struct AudioConfig {
    /// Substring of the input device name. `None` uses the default device.
    pub input_device: Option<String>,
    /// Substring of the output device name. `None` uses the default device.
    pub output_device: Option<String>,
    /// Sample rate to request. `None` takes the device's preference.
    pub sample_rate: Option<u32>,
    /// Block size to request. `None` leaves it to the device.
    pub buffer_frames: Option<u32>,
    /// Channel count to request. `None` asks for stereo.
    pub channels: Option<u16>,
    /// Blocks of capture to buffer before the output starts consuming.
    ///
    /// This is the fixed delay between the input and output callbacks, and it is the
    /// part of the round trip the software controls.
    pub cushion_blocks: u32,
    /// Round-trip latency to compensate for, in frames.
    ///
    /// `None` measures it from the driver's own callback timestamps. Set it only to
    /// override a driver that reports badly.
    pub capture_offset: Option<u32>,
}

impl AudioConfig {
    /// Defaults: default devices, stereo, device-chosen rate, two blocks of cushion.
    pub fn new() -> (r: Self)
        ensures
            r.input_device is None,
            r.output_device is None,
            r.sample_rate is None,
            r.buffer_frames is None,
            r.channels is None,
            r.cushion_blocks == 2,
            r.capture_offset is None,
    {
        Self {
            input_device: None,
            output_device: None,
            sample_rate: None,
            buffer_frames: None,
            channels: None,
            cushion_blocks: 2,
            capture_offset: None,
        }
    }
}

/// The configuration both streams agreed on.
#[derive(Debug, Clone, Copy, PartialEq, Eq, Structural)]
pub struct Negotiated {
    /// Rate both streams run at.
    pub sample_rate: u32,
    /// Channels the engine works in. This is the output channel count.
    pub channels: usize,
    /// Channels the input device delivers, before mapping.
    pub input_channels: usize,
    /// Sample format the input device delivers.
    pub input_format: SampleFormat,
    /// Sample format the output device expects.
    pub output_format: SampleFormat,
    /// Channels the engine reads, which is the device's width up to the ceiling.
    pub capture_channels: usize,
    /// Block size requested, if one was.
    pub buffer_frames: Option<u32>,
    /// Frames of capture buffered before the output starts consuming.
    pub cushion_frames: usize,
    /// Round-trip latency the caller pinned, if any.
    pub capture_offset: Option<u32>,
}

impl Negotiated {
    /// Frames of latency this crate adds on top of the device's own round trip.
    pub fn added_latency_frames(&self) -> (r: usize)
        ensures
            r == self.cushion_frames,
    {
        self.cushion_frames
    }
}

/// Converts a duration reported by a driver into frames.
pub fn frames_in(duration: Nanos, sample_rate: u32) -> (r: u32)
    requires
        duration <= LONGEST,
    ensures
        r == (if duration * sample_rate / 1_000_000_000 <= u32::MAX {
            duration * sample_rate / 1_000_000_000
        } else {
            u32::MAX as int
        }),
{
    proof {
        assert(0 <= duration * sample_rate <= LONGEST * 0xffff_ffff) by (nonlinear_arith)
            requires
                0 <= duration <= LONGEST,
                0 <= sample_rate <= 0xffff_ffff,
        ;
    }
    let frames: u128 = duration * sample_rate as u128 / 1_000_000_000;
    if frames <= u32::MAX as u128 {
        frames as u32
    } else {
        u32::MAX
    }
}

/// Formats this crate can convert, best first. Anything else is refused rather than silently
/// mangled.
pub open spec fn rank(format: SampleFormat) -> Option<u8> {
    match format {
        SampleFormat::F32 => Some(0),
        SampleFormat::I16 => Some(1),
        SampleFormat::I32 => Some(2),
        SampleFormat::U16 => Some(3),
        _ => None,
    }
}

fn format_rank(format: SampleFormat) -> (r: Option<u8>)
    ensures
        r == rank(format),
{
    match format {
        SampleFormat::F32 => Some(0),
        SampleFormat::I16 => Some(1),
        SampleFormat::I32 => Some(2),
        SampleFormat::U16 => Some(3),
        _ => None,
    }
}

/// How far apart two rates are.
pub open spec fn apart(a: int, b: int) -> int {
    if a >= b {
        a - b
    } else {
        b - a
    }
}

/// How far a rate misses.
///
/// With no request, the preferred rates come first and in order. A device may report each
/// discrete rate as a range of its own, so preferring one within a range never gets to choose
/// between them. Other rates rank below both, closest to the top preference first.
pub open spec fn rate_miss(rate: int, wanted: Option<u32>) -> int {
    match wanted {
        Some(wanted) => apart(wanted as int, rate),
        None => if rate == PREFERRED_RATE {
            0
        } else if rate == SECOND_RATE {
            1
        } else if apart(rate, PREFERRED_RATE as int) + 2 <= u32::MAX {
            apart(rate, PREFERRED_RATE as int) + 2
        } else {
            u32::MAX as int
        },
    }
}

/// With no request, the preferred rate ranks first, the second one after it and every other one
/// below both, the closer to the preferred rate the better. With one, a rate misses by how far it
/// is from it.
pub proof fn nearer_rates_rank_first(a: u32, b: u32, wanted: u32)
    requires
        a != PREFERRED_RATE && a != SECOND_RATE,
        b != PREFERRED_RATE && b != SECOND_RATE,
    ensures
        rate_miss(PREFERRED_RATE as int, None) < rate_miss(SECOND_RATE as int, None),
        rate_miss(SECOND_RATE as int, None) < rate_miss(a as int, None),
        apart(a as int, PREFERRED_RATE as int) < apart(b as int, PREFERRED_RATE as int)
            ==> rate_miss(a as int, None) < rate_miss(b as int, None),
        rate_miss(a as int, Some(wanted)) == apart(a as int, wanted as int),
        rate_miss(PREFERRED_RATE as int, Some(wanted)) == apart(
            PREFERRED_RATE as int,
            wanted as int,
        ),
        rate_miss(SECOND_RATE as int, Some(wanted)) == apart(SECOND_RATE as int, wanted as int),
{
}

/// How far a rate misses.
pub fn rate_penalty(rate: u32, wanted: Option<u32>) -> (r: u32)
    ensures
        r == rate_miss(rate as int, wanted),
{
    match wanted {
        Some(wanted) => if wanted >= rate {
            wanted - rate
        } else {
            rate - wanted
        },
        None => if rate == PREFERRED_RATE {
            0
        } else if rate == SECOND_RATE {
            1
        } else if rate >= PREFERRED_RATE {
            (rate - PREFERRED_RATE).saturating_add(2)
        } else {
            (PREFERRED_RATE - rate).saturating_add(2)
        },
    }
}

/// The rate to use from a range, given what was asked for: the one asked for or the end of the
/// range nearest it, else the first preferred one that it covers, else its highest.
pub open spec fn rate_from(range: ConfigRange, wanted: Option<u32>) -> u32 {
    match wanted {
        Some(rate) => if rate < range.min_sample_rate {
            range.min_sample_rate
        } else if rate > range.max_sample_rate {
            range.max_sample_rate
        } else {
            rate
        },
        None => if range.min_sample_rate <= PREFERRED_RATE <= range.max_sample_rate {
            PREFERRED_RATE
        } else if range.min_sample_rate <= SECOND_RATE <= range.max_sample_rate {
            SECOND_RATE
        } else {
            range.max_sample_rate
        },
    }
}

fn pick_rate(range: &ConfigRange, wanted: Option<u32>) -> (r: u32)
    requires
        wanted is Some ==> range.min_sample_rate <= range.max_sample_rate,
    ensures
        r == rate_from(*range, wanted),
{
    let min: u32 = range.min_sample_rate;
    let max: u32 = range.max_sample_rate;
    match wanted {
        Some(rate) => if rate < min {
            min
        } else if rate > max {
            max
        } else {
            rate
        },
        None => if min <= PREFERRED_RATE && PREFERRED_RATE <= max {
            PREFERRED_RATE
        } else if min <= SECOND_RATE && SECOND_RATE <= max {
            SECOND_RATE
        } else {
            max
        },
    }
}

/// How badly a channel count misses. Extra channels are usable, since the mapper takes
/// the first few, so missing channels is the far worse outcome.
pub open spec fn channel_miss(have: int, want: int) -> int {
    if have >= want {
        have - want
    } else {
        1_000 + want - have
    }
}

fn channel_penalty(have: u16, want: u16) -> (r: u32)
    ensures
        r == channel_miss(have as int, want as int),
{
    if have >= want {
        (have - want) as u32
    } else {
        1_000 + (want - have) as u32
    }
}

/// What a range is ranked by: channel fit first, then how close the rate lands to the request,
/// then format preference, then fewest channels.
pub open spec fn rank_key(range: ConfigRange, wanted_rate: Option<u32>, want_channels: int) -> (
    int,
    int,
    int,
    int,
) {
    (
        channel_miss(range.channels as int, want_channels),
        rate_miss(rate_from(range, wanted_rate) as int, wanted_rate),
        rank(range.sample_format)->Some_0 as int,
        range.channels as int,
    )
}

/// Whether one rank comes before another.
pub open spec fn ranks_before(a: (int, int, int, int), b: (int, int, int, int)) -> bool {
    a.0 < b.0 || a.0 == b.0 && (a.1 < b.1 || a.1 == b.1 && (a.2 < b.2 || a.2 == b.2 && a.3 < b.3))
}

/// The configuration a range gives.
pub open spec fn config_from(range: ConfigRange, wanted_rate: Option<u32>) -> SupportedConfig {
    SupportedConfig {
        channels: range.channels,
        sample_rate: rate_from(range, wanted_rate),
        buffer_size: range.buffer_size,
        sample_format: range.sample_format,
    }
}

/// The channel count asked for, or the one assumed.
pub open spec fn channels_wanted(wanted: Option<u16>) -> int {
    match wanted {
        Some(wanted) => wanted as int,
        None => DEFAULT_CHANNELS as int,
    }
}

/// Whether a range is the first of the best ones that can be used.
pub open spec fn is_best(
    ranges: Seq<ConfigRange>,
    best: int,
    wanted_rate: Option<u32>,
    want_channels: int,
) -> bool {
    &&& 0 <= best < ranges.len()
    &&& rank(ranges[best].sample_format) is Some
    &&& forall|i: int|
        #![trigger ranges[i]]
        0 <= i < ranges.len() && rank(ranges[i].sample_format) is Some ==> {
            let here = rank_key(ranges[i], wanted_rate, want_channels);
            let there = rank_key(ranges[best], wanted_rate, want_channels);
            if i < best {
                ranks_before(there, here)
            } else {
                !ranks_before(here, there)
            }
        }
}

/// Whether every range in a usable format runs upwards.
pub open spec fn ranges_run_up(ranges: Seq<ConfigRange>) -> bool {
    forall|i: int|
        0 <= i < ranges.len() && rank((#[trigger] ranges[i]).sample_format) is Some
            ==> ranges[i].min_sample_rate <= ranges[i].max_sample_rate
}

/// What choosing from a device's ranges gives.
pub open spec fn chosen(
    ranges: Seq<ConfigRange>,
    wanted_rate: Option<u32>,
    wanted_channels: Option<u16>,
    config: Option<SupportedConfig>,
) -> bool {
    match config {
        Some(config) => exists|best: int|
            #[trigger] is_best(ranges, best, wanted_rate, channels_wanted(wanted_channels))
                && config == config_from(ranges[best], wanted_rate),
        None => forall|i: int|
            0 <= i < ranges.len() ==> rank((#[trigger] ranges[i]).sample_format) is None,
    }
}

/// Picks the best configuration a device offers.
///
/// Ranked by channel fit first, then how close the rate lands to the request, then
/// format preference, then fewest channels.
pub fn choose_config(
    ranges: &[ConfigRange],
    wanted_rate: Option<u32>,
    wanted_channels: Option<u16>,
) -> (r: Option<SupportedConfig>)
    requires
        wanted_rate is Some ==> ranges_run_up(ranges@),
    ensures
        chosen(ranges@, wanted_rate, wanted_channels, r),
{
    let want_channels: u16 = match wanted_channels {
        Some(wanted) => wanted,
        None => DEFAULT_CHANNELS,
    };
    let mut best: Option<usize> = None;
    let mut best_key: (u32, u32, u8, u16) = (0, 0, 0, 0);
    let mut index: usize = 0;
    while index < ranges.len()
        invariant
            index <= ranges@.len(),
            want_channels == channels_wanted(wanted_channels),
            wanted_rate is Some ==> ranges_run_up(ranges@),
            match best {
                None => forall|i: int|
                    0 <= i < index ==> rank((#[trigger] ranges@[i]).sample_format) is None,
                Some(best) => best < index && is_best(
                    ranges@.take(index as int),
                    best as int,
                    wanted_rate,
                    want_channels as int,
                ) && rank_key(ranges@[best as int], wanted_rate, want_channels as int) == (
                    best_key.0 as int,
                    best_key.1 as int,
                    best_key.2 as int,
                    best_key.3 as int,
                ),
            },
        decreases ranges@.len() - index,
    {
        let range: ConfigRange = ranges[index];
        let ghost seen = ranges@.take(index as int);
        let ghost next = ranges@.take(index + 1);
        proof {
            assert(forall|i: int| 0 <= i < index ==> #[trigger] next[i] == seen[i]);
            assert(next[index as int] == range);
        }
        if let Some(format) = format_rank(range.sample_format) {
            let rate: u32 = pick_rate(&range, wanted_rate);
            let key: (u32, u32, u8, u16) = (
                channel_penalty(range.channels, want_channels),
                rate_penalty(rate, wanted_rate),
                format,
                range.channels,
            );
            let better: bool = match best {
                None => true,
                Some(_) => key_before(key, best_key),
            };
            let ghost was = best;
            if better {
                best = Some(index);
                best_key = key;
                proof {
                    assert forall|i: int|
                        #![trigger next[i]]
                        0 <= i < next.len() && rank(next[i].sample_format) is Some implies {
                        let here = rank_key(next[i], wanted_rate, want_channels as int);
                        let there = rank_key(range, wanted_rate, want_channels as int);
                        if i < index {
                            ranks_before(there, here)
                        } else {
                            !ranks_before(here, there)
                        }
                    } by {
                        if i < index {
                            assert(next[i] == seen[i]);
                            assert(seen[i] == ranges@[i]);
                        }
                    }
                }
            } else {
                proof {
                    let top = best->Some_0 as int;
                    assert(next[top] == seen[top]);
                    assert(is_best(next, top, wanted_rate, want_channels as int));
                }
            }
        } else {
            proof {
                if let Some(top) = best {
                    assert(next[top as int] == seen[top as int]);
                    assert(is_best(next, top as int, wanted_rate, want_channels as int));
                }
            }
        }
        index += 1;
    }
    assert(ranges@.take(index as int) =~= ranges@);
    match best {
        None => None,
        Some(best) => {
            let range: ConfigRange = ranges[best];
            Some(
                SupportedConfig {
                    channels: range.channels,
                    sample_rate: pick_rate(&range, wanted_rate),
                    buffer_size: range.buffer_size,
                    sample_format: range.sample_format,
                },
            )
        },
    }
}

fn key_before(a: (u32, u32, u8, u16), b: (u32, u32, u8, u16)) -> (r: bool)
    ensures
        r == ranks_before(
            (a.0 as int, a.1 as int, a.2 as int, a.3 as int),
            (b.0 as int, b.1 as int, b.2 as int, b.3 as int),
        ),
{
    if a.0 != b.0 {
        a.0 < b.0
    } else if a.1 != b.1 {
        a.1 < b.1
    } else if a.2 != b.2 {
        a.2 < b.2
    } else {
        a.3 < b.3
    }
}

/// A block size a device accepts, nearest the one asked for.
pub open spec fn block_for(supported: SupportedBufferSize, wanted: Option<u32>) -> BufferSize {
    match (supported, wanted) {
        (SupportedBufferSize::Range { min, max }, Some(frames)) => BufferSize::Fixed(
            if frames < min {
                min
            } else if frames > max {
                max
            } else {
                frames
            },
        ),
        _ => BufferSize::Default,
    }
}

/// Turns a requested block size into one the device accepts.
pub fn buffer_size(supported: &SupportedBufferSize, wanted: Option<u32>) -> (r: BufferSize)
    requires
        wanted is Some ==> (*supported matches SupportedBufferSize::Range { min, max } ==> min
            <= max),
    ensures
        r == block_for(*supported, wanted),
{
    match (*supported, wanted) {
        (SupportedBufferSize::Range { min, max }, Some(frames)) => BufferSize::Fixed(
            if frames < min {
                min
            } else if frames > max {
                max
            } else {
                frames
            },
        ),
        _ => BufferSize::Default,
    }
}

/// Frames of cushion for a block size and a block count.
pub open spec fn cushion(buffer_frames: Option<u32>, blocks: int) -> int {
    let asked = match buffer_frames {
        Some(frames) => frames,
        None => ASSUMED_BLOCK_FRAMES,
    };
    let block: int = if asked < 1 {
        1
    } else {
        asked as int
    };
    if block * blocks <= u32::MAX {
        block * blocks
    } else {
        u32::MAX as int
    }
}

/// Frames of cushion for a given block size and block count.
pub fn cushion_frames(buffer_frames: Option<u32>, blocks: u32) -> (r: usize)
    ensures
        r == cushion(buffer_frames, blocks as int),
{
    let asked: u32 = match buffer_frames {
        Some(frames) => frames,
        None => ASSUMED_BLOCK_FRAMES,
    };
    let block: u32 = if asked < 1 {
        1
    } else {
        asked
    };
    proof {
        assert(0 <= block * blocks <= 0xffff_ffff * 0xffff_ffff) by (nonlinear_arith)
            requires
                0 <= block <= 0xffff_ffff,
                0 <= blocks <= 0xffff_ffff,
        ;
    }
    let frames: u64 = block as u64 * blocks as u64;
    if frames <= u32::MAX as u64 {
        frames as usize
    } else {
        u32::MAX as usize
    }
}

/// Configurations agreed for both devices.
#[derive(Debug, Clone, Copy, PartialEq, Eq, Structural)]
pub struct Plan {
    /// What the two devices agreed on.
    pub negotiated: Negotiated,
    /// What to open the input with.
    pub input_config: StreamConfig,
    /// What to open the output with.
    pub output_config: StreamConfig,
}

/// The plan two configurations of the same rate make.
pub open spec fn plan_for(
    config: AudioConfig,
    output: SupportedConfig,
    input: SupportedConfig,
) -> Plan {
    Plan {
        negotiated: Negotiated {
            sample_rate: output.sample_rate,
            channels: output.channels as usize,
            input_channels: input.channels as usize,
            input_format: input.sample_format,
            output_format: output.sample_format,
            capture_channels: if input.channels < INPUT_CHANNELS {
                input.channels as usize
            } else {
                INPUT_CHANNELS
            },
            buffer_frames: config.buffer_frames,
            cushion_frames: cushion(config.buffer_frames, config.cushion_blocks as int) as usize,
            capture_offset: config.capture_offset,
        },
        input_config: StreamConfig {
            channels: input.channels,
            sample_rate: output.sample_rate,
            buffer_size: block_for(input.buffer_size, config.buffer_frames),
        },
        output_config: StreamConfig {
            channels: output.channels,
            sample_rate: output.sample_rate,
            buffer_size: block_for(output.buffer_size, config.buffer_frames),
        },
    }
}

/// Whether a range of block sizes runs upwards.
pub open spec fn block_runs_up(supported: SupportedBufferSize) -> bool {
    supported matches SupportedBufferSize::Range { min, max } ==> min <= max
}

/// Whether what two devices offer can be held to what is asked for. A rate that is asked for is
/// held to the ranges of the output, the rate of the output to those of the input, and where they
/// agree a block size that is asked for to the block sizes of the two that were chosen.
pub open spec fn can_negotiate(
    config: AudioConfig,
    output_ranges: Seq<ConfigRange>,
    input_ranges: Seq<ConfigRange>,
) -> bool {
    &&& config.sample_rate is Some ==> ranges_run_up(output_ranges)
    &&& forall|output: SupportedConfig| #[trigger]
        chosen(output_ranges, config.sample_rate, config.channels, Some(output))
            ==> can_follow(config, output, input_ranges)
}

/// Whether what the input offers can be held to what is asked for, once the output is chosen.
pub open spec fn can_follow(
    config: AudioConfig,
    output: SupportedConfig,
    input_ranges: Seq<ConfigRange>,
) -> bool {
    &&& ranges_run_up(input_ranges)
    &&& forall|input: SupportedConfig| #[trigger]
        chosen(input_ranges, Some(output.sample_rate), None, Some(input)) && input.sample_rate
            == output.sample_rate && config.buffer_frames is Some ==> block_runs_up(
            output.buffer_size,
        ) && block_runs_up(input.buffer_size)
}

/// There is one way to choose from a device's ranges.
proof fn one_is_chosen(
    ranges: Seq<ConfigRange>,
    wanted_rate: Option<u32>,
    wanted_channels: Option<u16>,
    a: Option<SupportedConfig>,
    b: Option<SupportedConfig>,
)
    requires
        chosen(ranges, wanted_rate, wanted_channels, a),
        chosen(ranges, wanted_rate, wanted_channels, b),
    ensures
        a == b,
{
    let want = channels_wanted(wanted_channels);
    if a is Some && b is Some {
        let x = choose|best: int|
            #[trigger] is_best(ranges, best, wanted_rate, want) && a->Some_0 == config_from(
                ranges[best],
                wanted_rate,
            );
        let y = choose|best: int|
            #[trigger] is_best(ranges, best, wanted_rate, want) && b->Some_0 == config_from(
                ranges[best],
                wanted_rate,
            );
        assert(ranges[x] == ranges[x] && ranges[y] == ranges[y]);
        assert(x == y);
    } else if a is Some {
        let x = choose|best: int|
            #[trigger] is_best(ranges, best, wanted_rate, want) && a->Some_0 == config_from(
                ranges[best],
                wanted_rate,
            );
        assert(rank(ranges[x].sample_format) is Some);
    } else if b is Some {
        let y = choose|best: int|
            #[trigger] is_best(ranges, best, wanted_rate, want) && b->Some_0 == config_from(
                ranges[best],
                wanted_rate,
            );
        assert(rank(ranges[y].sample_format) is Some);
    }
}

/// Whether the ranges of a device that are usable run upwards.
fn run_up(ranges: &[ConfigRange]) -> (r: bool)
    ensures
        r == ranges_run_up(ranges@),
{
    let mut index: usize = 0;
    while index < ranges.len()
        invariant
            index <= ranges@.len(),
            forall|i: int|
                0 <= i < index && rank((#[trigger] ranges@[i]).sample_format) is Some
                    ==> ranges@[i].min_sample_rate <= ranges@[i].max_sample_rate,
        decreases ranges@.len() - index,
    {
        let range: ConfigRange = ranges[index];
        if format_rank(range.sample_format).is_some() && range.min_sample_rate
            > range.max_sample_rate {
            assert(!(ranges@[index as int].min_sample_rate
                <= ranges@[index as int].max_sample_rate));
            return false;
        }
        index += 1;
    }
    true
}

/// Whether a range of block sizes runs upwards.
fn block_up(supported: SupportedBufferSize) -> (r: bool)
    ensures
        r == block_runs_up(supported),
{
    match supported {
        SupportedBufferSize::Range { min, max } => min <= max,
        _ => true,
    }
}

/// Whether what two devices offer can be held to what is asked for.
pub fn is_negotiable(
    config: &AudioConfig,
    output_ranges: &[ConfigRange],
    input_ranges: &[ConfigRange],
) -> (r: bool)
    ensures
        r == can_negotiate(*config, output_ranges@, input_ranges@),
{
    if config.sample_rate.is_some() && !run_up(output_ranges) {
        return false;
    }
    let first: Option<SupportedConfig> = choose_config(
        output_ranges,
        config.sample_rate,
        config.channels,
    );
    proof {
        assert forall|output: SupportedConfig| #[trigger]
            chosen(output_ranges@, config.sample_rate, config.channels, Some(output)) implies first
            == Some(output) by {
            one_is_chosen(
                output_ranges@,
                config.sample_rate,
                config.channels,
                first,
                Some(output),
            );
        }
    }
    let output: SupportedConfig = match first {
        Some(output) => output,
        None => {
            return true;
        },
    };
    assert(can_negotiate(*config, output_ranges@, input_ranges@) == can_follow(
        *config,
        output,
        input_ranges@,
    ));
    if !run_up(input_ranges) {
        return false;
    }
    let rate: Option<u32> = Some(output.sample_rate);
    let second: Option<SupportedConfig> = choose_config(input_ranges, rate, None);
    proof {
        assert forall|input: SupportedConfig| #[trigger]
            chosen(input_ranges@, rate, None, Some(input)) implies second == Some(input) by {
            one_is_chosen(input_ranges@, rate, None, second, Some(input));
        }
    }
    match second {
        Some(input) => {
            assert(chosen(input_ranges@, rate, None, Some(input)));
            input.sample_rate != output.sample_rate || config.buffer_frames.is_none() || block_up(
                output.buffer_size,
            ) && block_up(input.buffer_size)
        },
        None => true,
    }
}

/// What settling on a configuration for both devices gives. The input has to follow the
/// output's rate; two rates cannot share one transport.
pub open spec fn negotiates(
    config: AudioConfig,
    output_ranges: Seq<ConfigRange>,
    input_ranges: Seq<ConfigRange>,
    r: Result<Plan, AudioError>,
) -> bool {
    exists|output: Option<SupportedConfig>|
        #[trigger] chosen(output_ranges, config.sample_rate, config.channels, output)
            && match output {
            None => r matches Err(AudioError::NoUsableConfig(Direction::Output)),
            Some(output) => follows(config, output, input_ranges, r),
        }
}

/// What settling on a configuration for the input gives, once the output's is known.
pub open spec fn follows(
    config: AudioConfig,
    output: SupportedConfig,
    input_ranges: Seq<ConfigRange>,
    r: Result<Plan, AudioError>,
) -> bool {
    exists|input: Option<SupportedConfig>|
        #[trigger] chosen(input_ranges, Some(output.sample_rate), None, input) && match input {
            None => r matches Err(AudioError::NoUsableConfig(Direction::Input)),
            Some(input) => if input.sample_rate != output.sample_rate {
                r matches Err(AudioError::SampleRateMismatch { input: i, output: o }) && i
                    == input.sample_rate && o == output.sample_rate
            } else {
                r == Ok::<Plan, AudioError>(plan_for(config, output, input))
            },
        }
}

/// Settles on a configuration for both devices, from what they offer.
///
/// # Errors
///
/// [`AudioError`] if a device offers nothing usable, or the two devices cannot agree on a
/// sample rate.
pub fn negotiate(
    config: &AudioConfig,
    output_ranges: &[ConfigRange],
    input_ranges: &[ConfigRange],
) -> (r: Result<Plan, AudioError>)
    requires
        can_negotiate(*config, output_ranges@, input_ranges@),
    ensures
        negotiates(*config, output_ranges@, input_ranges@, r),
        r matches Ok(plan) ==> is_consistent(plan),
{
    let first: Option<SupportedConfig> = choose_config(output_ranges, config.sample_rate, config.channels);
    let output: SupportedConfig = match first {
        Some(output) => output,
        None => {
            return Err(AudioError::NoUsableConfig(Direction::Output));
        },
    };
    let second: Option<SupportedConfig> = choose_config(input_ranges, Some(output.sample_rate), None);
    let input: SupportedConfig = match second {
        Some(input) => input,
        None => {
            return Err(AudioError::NoUsableConfig(Direction::Input));
        },
    };
    if input.sample_rate != output.sample_rate {
        return Err(
            AudioError::SampleRateMismatch {
                input: input.sample_rate,
                output: output.sample_rate,
            },
        );
    }
    let negotiated = Negotiated {
        sample_rate: output.sample_rate,
        channels: output.channels as usize,
        input_channels: input.channels as usize,
        input_format: input.sample_format,
        output_format: output.sample_format,
        capture_channels: if (input.channels as usize) < INPUT_CHANNELS {
            input.channels as usize
        } else {
            INPUT_CHANNELS
        },
        buffer_frames: config.buffer_frames,
        cushion_frames: cushion_frames(config.buffer_frames, config.cushion_blocks),
        capture_offset: config.capture_offset,
    };
    let plan = Plan {
            negotiated,
            input_config: StreamConfig {
                channels: input.channels,
                sample_rate: negotiated.sample_rate,
                buffer_size: buffer_size(&input.buffer_size, config.buffer_frames),
            },
            output_config: StreamConfig {
                channels: output.channels,
                sample_rate: negotiated.sample_rate,
                buffer_size: buffer_size(&output.buffer_size, config.buffer_frames),
            },
        };
    assert(plan == plan_for(*config, output, input));
    Ok(plan)
}

/// Whether the two streams of a plan are opened with what was negotiated: each with its own
/// device's channels, both at one rate.
pub open spec fn is_consistent(plan: Plan) -> bool {
    &&& plan.output_config.channels == plan.negotiated.channels
    &&& plan.input_config.channels == plan.negotiated.input_channels
    &&& plan.output_config.sample_rate == plan.negotiated.sample_rate
    &&& plan.input_config.sample_rate == plan.negotiated.sample_rate
}

/// Whether a device offers a stream: one of its ranges is in this format, has this many channels,
/// covers this rate, and takes this block size, which is the one asked for if the range has it.
pub open spec fn is_offered(
    ranges: Seq<ConfigRange>,
    stream: StreamConfig,
    format: SampleFormat,
    wanted: Option<u32>,
) -> bool {
    exists|i: int|
        #![trigger ranges[i]]
        0 <= i < ranges.len() && ranges[i].sample_format == format && ranges[i].channels
            == stream.channels && ranges[i].min_sample_rate <= stream.sample_rate
            <= ranges[i].max_sample_rate && takes_block(
            ranges[i].buffer_size,
            stream.buffer_size,
            wanted,
        )
}

/// Whether a block size is one a device takes. It is left to the device where nothing was asked
/// for or the device will not say.
pub open spec fn takes_block(
    supported: SupportedBufferSize,
    size: BufferSize,
    wanted: Option<u32>,
) -> bool {
    match (size, wanted, supported) {
        (BufferSize::Default, wanted, supported) => wanted is None || supported is Unknown,
        (
            BufferSize::Fixed(frames),
            Some(wanted),
            SupportedBufferSize::Range { min, max },
        ) => min <= frames <= max && (min <= wanted <= max ==> frames == wanted),
        _ => false,
    }
}

/// A plan is consistent with what was negotiated and with what the devices offer. Each stream is
/// opened with the channels that were negotiated for it, both at the one rate, and in a range that
/// its own device offers. The engine reads no more channels than the input delivers, and the
/// latency that was asked for is what is used.
pub proof fn a_plan_is_what_was_negotiated(
    config: AudioConfig,
    output_ranges: Seq<ConfigRange>,
    input_ranges: Seq<ConfigRange>,
    plan: Plan,
)
    requires
        negotiates(config, output_ranges, input_ranges, Ok(plan)),
        can_negotiate(config, output_ranges, input_ranges),
        ranges_run_up(output_ranges),
    ensures
        is_consistent(plan),
        is_offered(
            output_ranges,
            plan.output_config,
            plan.negotiated.output_format,
            config.buffer_frames,
        ),
        is_offered(
            input_ranges,
            plan.input_config,
            plan.negotiated.input_format,
            config.buffer_frames,
        ),
        plan.negotiated.capture_channels <= plan.negotiated.input_channels,
        plan.negotiated.capture_channels <= INPUT_CHANNELS,
        plan.negotiated.capture_channels == plan.negotiated.input_channels
            || plan.negotiated.capture_channels == INPUT_CHANNELS,
        plan.negotiated.buffer_frames == config.buffer_frames,
        plan.negotiated.capture_offset == config.capture_offset,
        config.buffer_frames matches Some(frames) ==> 0 < frames && frames * config.cushion_blocks
            <= u32::MAX ==> plan.negotiated.cushion_frames == frames * config.cushion_blocks,
{
    let output = choose|output: Option<SupportedConfig>|
        #[trigger] chosen(output_ranges, config.sample_rate, config.channels, output)
            && match output {
            None => false,
            Some(output) => follows(config, output, input_ranges, Ok(plan)),
        };
    let out = output->Some_0;
    let input = choose|input: Option<SupportedConfig>|
        #[trigger] chosen(input_ranges, Some(out.sample_rate), None, input) && match input {
            None => false,
            Some(input) => input.sample_rate == out.sample_rate && plan == plan_for(
                config,
                out,
                input,
            ),
        };
    let inp = input->Some_0;
    assert(can_follow(config, out, input_ranges));
    let x = choose|best: int|
        #[trigger] is_best(
            output_ranges,
            best,
            config.sample_rate,
            channels_wanted(config.channels),
        ) && out == config_from(output_ranges[best], config.sample_rate);
    let y = choose|best: int|
        #[trigger] is_best(input_ranges, best, Some(out.sample_rate), channels_wanted(None)) && inp
            == config_from(input_ranges[best], Some(out.sample_rate));
    assert(output_ranges[x].sample_format == out.sample_format);
    assert(takes_block(
        output_ranges[x].buffer_size,
        plan.output_config.buffer_size,
        config.buffer_frames,
    ));
    assert(takes_block(
        input_ranges[y].buffer_size,
        plan.input_config.buffer_size,
        config.buffer_frames,
    ));
    assert(input_ranges[y].min_sample_rate <= input_ranges[y].max_sample_rate);
}

/// What is asked for is taken where it is offered. If one of a device's usable ranges has exactly
/// the channels that are wanted, the one chosen has them too; if it covers the rate that is wanted
/// as well, that is the rate; and if it does both in the best format, that is the format.
pub proof fn an_exact_offer_is_taken(
    ranges: Seq<ConfigRange>,
    wanted_rate: Option<u32>,
    wanted_channels: Option<u16>,
    config: Option<SupportedConfig>,
    offer: int,
)
    requires
        chosen(ranges, wanted_rate, wanted_channels, config),
        0 <= offer < ranges.len(),
        rank(ranges[offer].sample_format) is Some,
        wanted_channels matches Some(channels) ==> ranges[offer].channels == channels,
        wanted_channels is None ==> ranges[offer].channels == 2,
    ensures
        config matches Some(config) ==> config.channels == ranges[offer].channels,
        config is Some,
        ({
            let rate: u32 = match wanted_rate {
                Some(rate) => rate,
                None => 48_000,
            };
            ranges[offer].min_sample_rate <= rate <= ranges[offer].max_sample_rate ==> {
                &&& config->Some_0.sample_rate == rate
                &&& ranges[offer].sample_format is F32 ==> config->Some_0.sample_format is F32
            }
        }),
{
    let want = channels_wanted(wanted_channels);
    assert(config is Some);
    let best = choose|best: int|
        #[trigger] is_best(ranges, best, wanted_rate, want) && config->Some_0 == config_from(
            ranges[best],
            wanted_rate,
        );
    assert(ranges[offer].channels == want);
    assert(rank_key(ranges[offer], wanted_rate, want).0 == 0);
    assert(channel_miss(ranges[best].channels as int, want) == 0);
    let rate: u32 = match wanted_rate {
        Some(rate) => rate,
        None => 48_000,
    };
    if ranges[offer].min_sample_rate <= rate <= ranges[offer].max_sample_rate {
        assert(rate_from(ranges[offer], wanted_rate) == rate);
        assert(rate_miss(rate as int, wanted_rate) == 0);
        assert(rate_miss(rate_from(ranges[best], wanted_rate) as int, wanted_rate) == 0);
    }
}

/// Settling fails for a reason, and each reason is told: the output has nothing usable; or the
/// input has not; or the input, at the best it offers, does not run at the output's rate. With
/// something usable on both sides that runs at one rate there is a plan.
pub proof fn settling_fails_for_a_reason(
    config: AudioConfig,
    output_ranges: Seq<ConfigRange>,
    input_ranges: Seq<ConfigRange>,
    r: Result<Plan, AudioError>,
)
    requires
        negotiates(config, output_ranges, input_ranges, r),
    ensures
        r matches Err(AudioError::NoUsableConfig(Direction::Output)) <==> forall|i: int|
            0 <= i < output_ranges.len() ==> rank((#[trigger] output_ranges[i]).sample_format) is None,
        r matches Err(AudioError::NoUsableConfig(Direction::Input)) <==> (exists|i: int|
            0 <= i < output_ranges.len() && rank((#[trigger] output_ranges[i]).sample_format) is Some)
            && forall|i: int|
            0 <= i < input_ranges.len() ==> rank((#[trigger] input_ranges[i]).sample_format) is None,
        r matches Err(AudioError::SampleRateMismatch { input, output }) ==> input != output,
        r is Ok || r->Err_0 is NoUsableConfig || r->Err_0 is SampleRateMismatch,
{
    let output = choose|output: Option<SupportedConfig>|
        #[trigger] chosen(output_ranges, config.sample_rate, config.channels, output)
            && match output {
            None => r matches Err(AudioError::NoUsableConfig(Direction::Output)),
            Some(output) => follows(config, output, input_ranges, r),
        };
    if let Some(out) = output {
        let x = choose|best: int|
            #[trigger] is_best(
                output_ranges,
                best,
                config.sample_rate,
                channels_wanted(config.channels),
            ) && out == config_from(output_ranges[best], config.sample_rate);
        assert(rank(output_ranges[x].sample_format) is Some);
        let input = choose|input: Option<SupportedConfig>|
            #[trigger] chosen(input_ranges, Some(out.sample_rate), None, input) && match input {
                None => r matches Err(AudioError::NoUsableConfig(Direction::Input)),
                Some(input) => if input.sample_rate != out.sample_rate {
                    r matches Err(AudioError::SampleRateMismatch { input: i, output: o }) && i
                        == input.sample_rate && o == out.sample_rate
                } else {
                    r == Ok::<Plan, AudioError>(plan_for(config, out, input))
                },
            };
        if let Some(inp) = input {
            let y = choose|best: int|
                #[trigger] is_best(input_ranges, best, Some(out.sample_rate), channels_wanted(None))
                    && inp == config_from(input_ranges[best], Some(out.sample_rate));
            assert(rank(input_ranges[y].sample_format) is Some);
        }
    }
}

/// Frames the capture ring is asked to hold: the cushion, and four blocks on top of it.
pub open spec fn ring_size(negotiated: Negotiated) -> int {
    let block: int = match negotiated.buffer_frames {
        Some(frames) => frames as int,
        None => ASSUMED_BLOCK_FRAMES as int,
    };
    negotiated.cushion_frames + 4 * block
}

/// Frames the capture ring is asked to hold.
pub fn ring_frames(negotiated: &Negotiated) -> (r: usize)
    requires
        ring_size(*negotiated) <= usize::MAX,
    ensures
        r == ring_size(*negotiated),
{
    let block: u32 = match negotiated.buffer_frames {
        Some(frames) => frames,
        None => ASSUMED_BLOCK_FRAMES,
    };
    negotiated.cushion_frames + 4 * (block as usize)
}

/// Frames of the next of the blocks that a device's buffer is cut into, which are as long as
/// possible.
pub fn next_block(left: usize, most: usize) -> (r: usize)
    ensures
        r == (if left < most {
            left
        } else {
            most
        }),
{
    if left < most {
        left
    } else {
        most
    }
}

/// Frames the capture has delivered nothing for in a row, after a block that wanted some and was
/// filled with some. The count wraps.
pub fn starved(so_far: u32, wanted: usize, filled: usize) -> (r: u32)
    ensures
        r == (if filled == 0 && wanted > 0 {
            (so_far + (if wanted <= u32::MAX {
                wanted as int
            } else {
                u32::MAX as int
            })) % 0x1_0000_0000
        } else {
            0
        }),
{
    if filled == 0 && wanted > 0 {
        let frames: u32 = if wanted <= u32::MAX as usize {
            wanted as u32
        } else {
            u32::MAX
        };
        so_far.wrapping_add(frames)
    } else {
        0
    }
}

/// Whether the capture has delivered nothing for long enough to count as gone, which is a
/// second's worth of frames.
///
/// A device that is unplugged stops delivering without always reporting an error, so this
/// is the other way the streams learn they have to be rebuilt.
pub fn starved_out(frames: u32, sample_rate: u32) -> (r: bool)
    ensures
        r == (frames >= sample_rate),
{
    frames >= sample_rate
}

/// Whether a device that has come back can carry on with a session built for `wanted`.
///
/// Every clip length and phase is a frame count at one rate, and the engine interleaves
/// for one channel count. Anything else about the device may differ.
///
/// # Errors
///
/// [`AudioError::ConfigurationChanged`] if the rate or the channel count is another.
pub fn compatible(wanted: Negotiated, found: Negotiated) -> (r: Result<(), AudioError>)
    ensures
        r is Ok <==> wanted.sample_rate == found.sample_rate && wanted.channels == found.channels,
        r is Err ==> r->Err_0 == (AudioError::ConfigurationChanged {
            wanted_rate: wanted.sample_rate,
            found_rate: found.sample_rate,
            wanted_channels: wanted.channels,
            found_channels: found.channels,
        }),
{
    if wanted.sample_rate == found.sample_rate && wanted.channels == found.channels {
        return Ok(());
    }
    Err(
        AudioError::ConfigurationChanged {
            wanted_rate: wanted.sample_rate,
            found_rate: found.sample_rate,
            wanted_channels: wanted.channels,
            found_channels: found.channels,
        },
    )
}

/// Trouble a running stream reports.
#[derive(Debug, Clone, Copy, PartialEq, Eq, Structural)]
pub enum Trouble {
    /// The device is not there any more.
    DeviceNotAvailable,
    /// The stream no longer works.
    StreamInvalidated,
    /// The host moved the stream to another device.
    DeviceChanged,
    /// Anything else.
    Other,
}

impl Trouble {
    /// Whether the streams have to be rebuilt. A reroute leaves the stream working.
    pub fn needs_rebuild(self) -> (r: bool)
        ensures
            r == (self is DeviceNotAvailable || self is StreamInvalidated),
    {
        matches!(self, Trouble::DeviceNotAvailable | Trouble::StreamInvalidated)
    }
}

/// Calls `str::to_lowercase`, whose result is named rather than spelled out.
#[verifier::external_body]
fn to_lowercase(text: &str) -> (r: String)
    ensures
        r@ == lowercase(text@),
{
    text.to_lowercase()
}

/// What `str::to_lowercase` makes of a text.
pub uninterp spec fn lowercase(text: Seq<char>) -> Seq<char>;

/// Whether a text occurs in another.
pub open spec fn occurs(needle: Seq<char>, text: Seq<char>) -> bool {
    exists|at: int|
        0 <= at <= text.len() - needle.len() && #[trigger] text.subrange(at, at + needle.len())
            == needle
}

/// Calls `str::contains` with a text as the pattern, which says whether it occurs.
#[verifier::external_body]
fn contains(text: &str, needle: &str) -> (r: bool)
    ensures
        r == occurs(needle@, text@),
{
    text.contains(needle)
}

/// A device the host lists.
#[derive(Debug)]
pub struct ListedDevice {
    /// What it is called.
    pub name: String,
    /// Whether it can capture.
    pub input: bool,
    /// Whether it can play back.
    pub output: bool,
}

/// Whether a device goes the right way and is called something like what was asked for,
/// whatever the case.
pub open spec fn answers(device: ListedDevice, wanted: Seq<char>, direction: Direction) -> bool {
    (match direction {
        Direction::Input => device.input,
        Direction::Output => device.output,
    }) && occurs(lowercase(wanted), lowercase(device.name@))
}

/// A device as it is looked for: its name with the case taken out of it, and whether it goes the
/// right way.
#[derive(Debug)]
pub struct Candidate {
    /// Its name, in lower case.
    pub name: String,
    /// Whether it goes the right way.
    pub usable: bool,
}

/// Whether a candidate goes the right way and has a text in its name.
pub open spec fn suits(candidate: Candidate, needle: Seq<char>) -> bool {
    candidate.usable && occurs(needle, candidate.name@)
}

/// The place of the first candidate that goes the right way and has a text in its name.
pub fn find_candidate(candidates: &Vec<Candidate>, needle: &str) -> (r: Option<usize>)
    ensures
        match r {
            Some(found) => found < candidates@.len() && suits(candidates@[found as int], needle@)
                && forall|i: int| 0 <= i < found ==> !suits(#[trigger] candidates@[i], needle@),
            None => forall|i: int|
                0 <= i < candidates@.len() ==> !suits(#[trigger] candidates@[i], needle@),
        },
{
    let mut index: usize = 0;
    while index < candidates.len()
        invariant
            index <= candidates@.len(),
            forall|i: int| 0 <= i < index ==> !suits(#[trigger] candidates@[i], needle@),
        decreases candidates@.len() - index,
    {
        let candidate: &Candidate = &candidates[index];
        if candidate.usable && contains(candidate.name.as_str(), needle) {
            return Some(index);
        }
        index += 1;
    }
    None
}

/// The place of the first device that goes the right way and is called something like what was
/// asked for, whatever the case.
pub fn find_named(devices: &[ListedDevice], wanted: &str, direction: Direction) -> (r: Option<usize>)
    ensures
        match r {
            Some(found) => found < devices@.len() && answers(
                devices@[found as int],
                wanted@,
                direction,
            ) && forall|i: int|
                0 <= i < found ==> !answers(#[trigger] devices@[i], wanted@, direction),
            None => forall|i: int|
                0 <= i < devices@.len() ==> !answers(#[trigger] devices@[i], wanted@, direction),
        },
{
    let needle: String = to_lowercase(wanted);
    let mut candidates: Vec<Candidate> = Vec::with_capacity(devices.len());
    while candidates.len() < devices.len()
        invariant
            candidates@.len() <= devices@.len(),
            needle@ == lowercase(wanted@),
            forall|i: int|
                0 <= i < candidates@.len() ==> suits(#[trigger] candidates@[i], needle@) == answers(
                    devices@[i],
                    wanted@,
                    direction,
                ),
        decreases devices@.len() - candidates@.len(),
    {
        let device: &ListedDevice = &devices[candidates.len()];
        let usable: bool = match direction {
            Direction::Input => device.input,
            Direction::Output => device.output,
        };
        candidates.push(Candidate { name: to_lowercase(device.name.as_str()), usable });
    }
    let found: Option<usize> = find_candidate(&candidates, needle.as_str());
    proof {
        let end = match found {
            Some(found) => found as int,
            None => devices@.len() as int,
        };
        assert forall|i: int| 0 <= i < end implies !answers(
            #[trigger] devices@[i],
            wanted@,
            direction,
        ) by {
            assert(!suits(candidates@[i], needle@));
        }
    }
    found
}

/// Devices the host can see.
#[derive(Debug)]
pub struct DeviceList {
    /// Names of devices that can capture.
    pub inputs: Vec<String>,
    /// Names of devices that can play back.
    pub outputs: Vec<String>,
}

/// The names of the devices before a place that go a given way, in order.
pub open spec fn names_going(devices: Seq<ListedDevice>, direction: Direction, to: int) -> Seq<
    Seq<char>,
>
    decreases to,
{
    if to <= 0 {
        Seq::empty()
    } else if match direction {
        Direction::Input => devices[to - 1].input,
        Direction::Output => devices[to - 1].output,
    } {
        names_going(devices, direction, to - 1).push(devices[to - 1].name@)
    } else {
        names_going(devices, direction, to - 1)
    }
}

/// The texts of a list of strings.
pub open spec fn texts(strings: Seq<String>) -> Seq<Seq<char>> {
    strings.map_values(|text: String| text@)
}

impl DeviceList {
    /// Sorts what the host lists by which way it goes.
    pub fn of(devices: &[ListedDevice]) -> (r: Self)
        ensures
            texts(r.inputs@) == names_going(devices@, Direction::Input, devices@.len() as int),
            texts(r.outputs@) == names_going(devices@, Direction::Output, devices@.len() as int),
    {
        let mut inputs: Vec<String> = Vec::new();
        let mut outputs: Vec<String> = Vec::new();
        let mut index: usize = 0;
        assert(texts(inputs@) =~= names_going(devices@, Direction::Input, 0));
        assert(texts(outputs@) =~= names_going(devices@, Direction::Output, 0));
        while index < devices.len()
            invariant
                index <= devices@.len(),
                texts(inputs@) == names_going(devices@, Direction::Input, index as int),
                texts(outputs@) == names_going(devices@, Direction::Output, index as int),
            decreases devices@.len() - index,
        {
            let device: &ListedDevice = &devices[index];
            let ghost before = (inputs@, outputs@);
            if device.input {
                inputs.push(device.name.clone());
                assert(texts(inputs@) =~= texts(before.0).push(device.name@));
            }
            if device.output {
                outputs.push(device.name.clone());
                assert(texts(outputs@) =~= texts(before.1).push(device.name@));
            }
            index += 1;
        }
        DeviceList { inputs, outputs }
    }
}

/// What happened to the devices on one pass of the control loop.
#[derive(Debug)]
pub enum DeviceChange {
    /// A device went away. Nothing sounds and the transport is frozen where it was.
    Lost,
    /// The devices are running again.
    Back,
    /// A device was there but could not be used. Reported once per reason.
    Refused(AudioError),
}

/// Keeps track of whether the devices are running, and when to look again.
#[derive(Debug)]
pub struct DeviceWatch {
    /// Whether the streams are running.
    running: bool,
    /// Time of the next attempt, or `None` while the devices are running.
    retry_at: Option<Nanos>,
    /// Time of the next check that the open devices are still there.
    check_at: Nanos,
    /// The last reason a reopen was refused, so it is reported once.
    refusal: Option<String>,
}

/// What a watch over the devices holds.
#[verifier::ext_equal]
pub struct WatchView {
    /// Whether the streams are running.
    pub running: bool,
    /// Time of the next attempt.
    pub retry_at: Option<Nanos>,
    /// Time of the next check.
    pub check_at: Nanos,
    /// The last reason a reopen was refused.
    pub refusal: Option<Seq<char>>,
}

impl View for DeviceWatch {
    type V = WatchView;

    closed spec fn view(&self) -> WatchView {
        WatchView {
            running: self.running,
            retry_at: self.retry_at,
            check_at: self.check_at,
            refusal: match self.refusal {
                Some(reason) => Some(reason@),
                None => None,
            },
        }
    }
}

impl DeviceWatch {
    /// A watch over devices that have just been started.
    pub fn new() -> (r: Self)
        ensures
            r@ == (WatchView {
                running: true,
                retry_at: None,
                check_at: RETRY_INTERVAL,
                refusal: None,
            }),
    {
        DeviceWatch { running: true, retry_at: None, check_at: RETRY_INTERVAL, refusal: None }
    }

    /// Whether the devices are running.
    pub fn is_running(&self) -> (r: bool)
        ensures
            r == self@.running,
    {
        self.running
    }

    /// Whether it is time to check that the open devices are still listed. Asked of running
    /// devices, once an interval.
    pub fn check_due(&mut self, now: Nanos) -> (r: bool)
        requires
            now + RETRY_INTERVAL <= LONGEST,
        ensures
            r == (old(self)@.running && now >= old(self)@.check_at),
            final(self)@ == (WatchView {
                check_at: if r {
                    (now + RETRY_INTERVAL) as Nanos
                } else {
                    old(self)@.check_at
                },
                ..old(self)@
            }),
    {
        if self.running && now >= self.check_at {
            self.check_at = now + RETRY_INTERVAL;
            true
        } else {
            false
        }
    }

    /// Notices running devices going away: because a stream said so, because the capture has
    /// delivered nothing for too long, or because a device is no longer listed. Returns whether
    /// they have, in which case the streams are to be dropped.
    pub fn lost(
        &mut self,
        now: Nanos,
        flagged: bool,
        starved: u32,
        sample_rate: u32,
        listed: bool,
    ) -> (r: bool)
        requires
            now + RETRY_INTERVAL <= LONGEST,
        ensures
            r == (old(self)@.running && (flagged || starved >= sample_rate || !listed)),
            final(self)@ == (if r {
                WatchView {
                    running: false,
                    retry_at: Some((now + RETRY_INTERVAL) as Nanos),
                    ..old(self)@
                }
            } else {
                old(self)@
            }),
    {
        if !self.running {
            return false;
        }
        if !flagged && !starved_out(starved, sample_rate) && listed {
            return false;
        }
        self.running = false;
        self.retry_at = Some(now + RETRY_INTERVAL);
        true
    }

    /// Whether it is time to try opening devices that went away again.
    pub fn retry_due(&mut self, now: Nanos) -> (r: bool)
        requires
            now + RETRY_INTERVAL <= LONGEST,
        ensures
            r == (!old(self)@.running && !(old(self)@.retry_at matches Some(at) && now < at)),
            final(self)@ == (WatchView {
                retry_at: if r {
                    Some((now + RETRY_INTERVAL) as Nanos)
                } else {
                    old(self)@.retry_at
                },
                ..old(self)@
            }),
    {
        if self.running {
            return false;
        }
        if let Some(at) = self.retry_at {
            if now < at {
                return false;
            }
        }
        self.retry_at = Some(now + RETRY_INTERVAL);
        true
    }

    /// The devices are running again.
    pub fn back(&mut self)
        ensures
            final(self)@ == (WatchView {
                running: true,
                retry_at: None,
                refusal: None,
                ..old(self)@
            }),
    {
        self.running = true;
        self.retry_at = None;
        self.refusal = None;
    }

    /// Opening the devices was refused. Returns whether to say so, which is once per reason, or
    /// an absent device would say so every interval for as long as it is gone.
    pub fn refused(&mut self, reason: String) -> (r: bool)
        ensures
            r == (old(self)@.refusal != Some(reason@)),
            final(self)@ == (WatchView { refusal: Some(reason@), ..old(self)@ }),
    {
        if let Some(before) = &self.refusal {
            if *before == reason {
                return false;
            }
        }
        self.refusal = Some(reason);
        true
    }
}

/// The round trip captured audio runs behind by, in frames: the one pinned, or what the driver
/// holds on each side and the cushion between the two callbacks.
pub fn round_trip(pinned: Option<u32>, output: u32, input: u32, cushion: u32) -> (r: u32)
    ensures
        r == (match pinned {
            Some(pinned) => pinned as int,
            None => if output + input + cushion <= u32::MAX {
                output + input + cushion
            } else {
                u32::MAX as int
            },
        }),
{
    match pinned {
        Some(pinned) => pinned,
        None => output.saturating_add(input).saturating_add(cushion),
    }
}

/// Whether a device goes a given way.
pub open spec fn goes(device: ListedDevice, direction: Direction) -> bool {
    match direction {
        Direction::Input => device.input,
        Direction::Output => device.output,
    }
}

/// The devices that are listed for a way are those that go it, all of them and in order.
pub proof fn devices_are_listed_by_where_they_go(
    devices: Seq<ListedDevice>,
    direction: Direction,
    to: int,
)
    requires
        0 <= to <= devices.len(),
    ensures
        names_going(devices, direction, to) == devices.take(to).filter(
            |device: ListedDevice| goes(device, direction),
        ).map_values(|device: ListedDevice| device.name@),
    decreases to,
{
    let going = |device: ListedDevice| goes(device, direction);
    let named = |device: ListedDevice| device.name@;
    reveal(Seq::filter);
    if to > 0 {
        devices_are_listed_by_where_they_go(devices, direction, to - 1);
        assert(devices.take(to).drop_last() =~= devices.take(to - 1));
        assert(devices.take(to).last() == devices[to - 1]);
        let rest = devices.take(to - 1).filter(going);
        assert(rest.push(devices[to - 1]).map_values(named) =~= rest.map_values(named).push(
            devices[to - 1].name@,
        ));
    } else {
        assert(devices.take(to).filter(going).map_values(named) =~= Seq::empty());
    }
}

/// A span of time is as many frames as fit in it whole, as far as they can be counted.
pub proof fn a_span_is_its_whole_frames(duration: Nanos, rate: u32, frames: u32)
    requires
        call_ensures(frames_in, (duration, rate), frames),
    ensures
        frames * 1_000_000_000 <= duration * rate,
        frames < u32::MAX ==> duration * rate < (frames + 1) * 1_000_000_000,
        rate > 0 && frames == 0 ==> duration * rate < 1_000_000_000,
{
    let exact = duration * rate;
    assert(0 <= exact) by (nonlinear_arith)
        requires
            exact == duration * rate,
            0 <= duration,
            0 <= rate,
    ;
}

/// A device that comes back has to run as the session does, at its rate and its width. Anything
/// else about it may have changed. The refusal says what was wanted and what was found.
pub proof fn a_returning_device_has_to_match(
    wanted: Negotiated,
    found: Negotiated,
    r: Result<(), AudioError>,
)
    requires
        call_ensures(compatible, (wanted, found), r),
    ensures
        found.sample_rate == wanted.sample_rate && found.channels == wanted.channels ==> r is Ok,
        found.sample_rate != wanted.sample_rate || found.channels != wanted.channels ==> r is Err,
        r is Err ==> r->Err_0 == (AudioError::ConfigurationChanged {
            wanted_rate: wanted.sample_rate,
            found_rate: found.sample_rate,
            wanted_channels: wanted.channels,
            found_channels: found.channels,
        }),
{
}

/// Capture that delivers nothing is counted frame by frame until some arrives, which starts the
/// count over; and a second of it, at whatever rate, counts as gone.
pub proof fn silence_counts_up_to_a_second(
    so_far: u32,
    wanted: usize,
    filled: usize,
    after: u32,
    rate: u32,
    gone: bool,
)
    requires
        call_ensures(starved, (so_far, wanted, filled), after),
        call_ensures(starved_out, (after, rate), gone),
        so_far + wanted <= u32::MAX,
    ensures
        filled > 0 ==> after == 0,
        filled == 0 && wanted > 0 ==> after == so_far + wanted,
        filled == 0 && wanted > 0 ==> (gone <==> so_far + wanted >= rate),
{
}

/// The round trip is what was pinned, whatever is measured; and otherwise all that was measured
/// together with the cushion.
pub proof fn the_round_trip_is_all_of_it(
    pinned: Option<u32>,
    output: u32,
    input: u32,
    cushion: u32,
    r: u32,
)
    requires
        call_ensures(round_trip, (pinned, output, input, cushion), r),
        output + input + cushion <= u32::MAX,
    ensures
        pinned is Some ==> Some(r) == pinned,
        pinned is None ==> r == output + input + cushion,
{
}

/// A buffer is cut into blocks that are as long as they may be and add up to it.
pub proof fn blocks_add_up_to_the_buffer(left: usize, most: usize, block: usize)
    requires
        call_ensures(next_block, (left, most), block),
    ensures
        block <= left,
        block <= most,
        block == left || block == most,
{
}

} // verus!
