//! The engine's fixed tuning constants, its processing configuration and the
//! negotiated formats of the devices it is attached to.

use vstd::prelude::*;

verus! {

/// The number of frames of far-end history kept for alignment.
pub const HISTORY_LEN: usize = 120;

/// The number of calibration packets played before calibration gives up.
pub const CALIBRATION_PACKETS: u32 = 15;

/// The length of a device queue, in seconds of audio.
pub const AUDIO_BUFFER_SECONDS: u32 = 5;

/// The quality level handed to the resampler.
pub const RESAMPLER_QUALITY: i32 = 5;

/// The number of frames an output device is asked for per callback.
pub const OUTPUT_FRAME_SIZE: u32 = 480;

/// The engine's internal processing rate, in samples per second.
pub const TARGET_SAMPLE_RATE: u32 = 16_000;

/// The length of a processing frame, in milliseconds.
pub const FRAME_SIZE_MS: usize = 10;

/// The length of the echo tail the canceller models, in milliseconds.
pub const FILTER_LENGTH_MS: usize = 100;

/// The largest number of inputs, and of outputs, that can be attached.
pub const MAX_DEVICES: usize = 65535;

/// Why a configuration or a device was rejected.
#[derive(Clone, Copy, Debug, PartialEq, Eq, Structural)]
pub enum ConfigError {
    /// The sample rate is zero, or too low for a frame to hold a sample.
    InvalidSampleRate,
    /// The frame size is not the one that the sample rate implies.
    FrameSizeMismatch,
    /// The filter length is not the one that the sample rate implies.
    FilterLengthMismatch,
    /// The device delivers a sample format that the engine does not process.
    UnsupportedSampleFormat,
    /// The device has no channels.
    NoChannels,
    /// A device queue would be empty or larger than the address space.
    BufferSize,
    /// As many devices as the engine takes are attached already.
    TooManyDevices,
}

impl ConfigError {
    /// What went wrong, in words.
    pub open spec fn description(self) -> Seq<char> {
        match self {
            ConfigError::InvalidSampleRate => "the sample rate is zero or too low for a frame"@,
            ConfigError::FrameSizeMismatch => "the frame size does not follow from the sample rate"@,
            ConfigError::FilterLengthMismatch => "the filter length does not follow from the sample rate"@,
            ConfigError::UnsupportedSampleFormat => "the sample format is not supported"@,
            ConfigError::NoChannels => "the device has no channels"@,
            ConfigError::BufferSize => "a device queue would be empty or too large"@,
            ConfigError::TooManyDevices => "too many devices are attached"@,
        }
    }

    /// What went wrong, in words.
    pub fn describe(&self) -> (text: &'static str)
        ensures
            text@ == self.description(),
    {
        match self {
            ConfigError::InvalidSampleRate => "the sample rate is zero or too low for a frame",
            ConfigError::FrameSizeMismatch => "the frame size does not follow from the sample rate",
            ConfigError::FilterLengthMismatch => "the filter length does not follow from the sample rate",
            ConfigError::UnsupportedSampleFormat => "the sample format is not supported",
            ConfigError::NoChannels => "the device has no channels",
            ConfigError::BufferSize => "a device queue would be empty or too large",
            ConfigError::TooManyDevices => "too many devices are attached",
        }
    }
}

/// The number of samples that `millis` milliseconds last at `sample_rate`,
/// rounded down.
pub open spec fn samples_in(sample_rate: u32, millis: usize) -> int {
    sample_rate as int * millis as int / 1000
}

/// The frame size that belongs to `sample_rate`.
pub open spec fn frame_size_for(sample_rate: u32) -> int {
    samples_in(sample_rate, FRAME_SIZE_MS)
}

/// The filter length that belongs to `sample_rate`.
pub open spec fn filter_length_for(sample_rate: u32) -> int {
    samples_in(sample_rate, FILTER_LENGTH_MS)
}

/// Whether a processing configuration can be derived from `sample_rate`:
/// a frame holds at least one sample and the filter length fits a `usize`.
pub open spec fn rate_supported(sample_rate: u32) -> bool {
    frame_size_for(sample_rate) > 0 && filter_length_for(sample_rate) <= usize::MAX
}

/// The verdict on a processing configuration given by its three numbers.
pub open spec fn checked_config(sample_rate: u32, frame_size: usize, filter_length: usize) -> Result<
    AecConfig,
    ConfigError,
> {
    if !rate_supported(sample_rate) {
        Err(ConfigError::InvalidSampleRate)
    } else if frame_size != frame_size_for(sample_rate) {
        Err(ConfigError::FrameSizeMismatch)
    } else if filter_length != filter_length_for(sample_rate) {
        Err(ConfigError::FilterLengthMismatch)
    } else {
        Ok(AecConfig { sample_rate, frame_size, filter_length })
    }
}

/// The processing configuration: the internal rate and the two lengths that
/// follow from it.
#[derive(Clone, Copy, Debug, PartialEq, Eq, Structural)]
pub struct AecConfig {
    /// The internal processing rate, in samples per second.
    pub sample_rate: u32,
    /// The number of samples in a processing frame.
    pub frame_size: usize,
    /// The number of samples of echo tail the canceller models.
    pub filter_length: usize,
}

impl AecConfig {
    /// Whether the two lengths are the ones that the sample rate implies.
    pub open spec fn wf(&self) -> bool {
        &&& rate_supported(self.sample_rate)
        &&& self.frame_size == frame_size_for(self.sample_rate)
        &&& self.filter_length == filter_length_for(self.sample_rate)
    }

    /// A well-formed configuration has a frame of at least one sample and a
    /// filter that spans at least one frame.
    pub proof fn lemma_lengths(&self)
        requires
            self.wf(),
        ensures
            0 < self.frame_size <= self.filter_length,
    {
    }

    /// The configuration for `sample_rate`, with both lengths derived from it.
    pub fn for_rate(sample_rate: u32) -> (made: Result<AecConfig, ConfigError>)
        ensures
            made is Ok <==> rate_supported(sample_rate),
            made matches Ok(c) ==> c.wf() && c.sample_rate == sample_rate,
            made matches Err(e) ==> e == ConfigError::InvalidSampleRate,
    {
        let frame: u64 = (sample_rate as u64) * (FRAME_SIZE_MS as u64) / 1000;
        let filter: u64 = (sample_rate as u64) * (FILTER_LENGTH_MS as u64) / 1000;
        if frame == 0 || filter > usize::MAX as u64 {
            return Err(ConfigError::InvalidSampleRate);
        }
        Ok(AecConfig { sample_rate, frame_size: frame as usize, filter_length: filter as usize })
    }

    /// The configuration with the given numbers, accepted only when both
    /// lengths are the ones that `sample_rate` implies.
    pub fn new(sample_rate: u32, frame_size: usize, filter_length: usize) -> (made: Result<
        AecConfig,
        ConfigError,
    >)
        ensures
            made == checked_config(sample_rate, frame_size, filter_length),
            made matches Ok(c) ==> c.wf(),
    {
        match AecConfig::for_rate(sample_rate) {
            Err(e) => Err(e),
            Ok(derived) => {
                if frame_size != derived.frame_size {
                    Err(ConfigError::FrameSizeMismatch)
                } else if filter_length != derived.filter_length {
                    Err(ConfigError::FilterLengthMismatch)
                } else {
                    Ok(derived)
                }
            },
        }
    }
}

/// The engine's own configuration: the target rate with a frame of ten and
/// a filter of a hundred milliseconds.
pub fn aec_config() -> (config: AecConfig)
    ensures
        config.wf(),
        config == (AecConfig { sample_rate: TARGET_SAMPLE_RATE, frame_size: 160, filter_length: 1600 }),
{
    AecConfig { sample_rate: TARGET_SAMPLE_RATE, frame_size: 160, filter_length: 1600 }
}

/// How a device represents one sample.
#[derive(Clone, Copy, Debug, PartialEq, Eq, Structural)]
pub enum SampleFormat {
    /// Signed integers of eight bits.
    I8,
    /// Signed integers of sixteen bits.
    I16,
    /// Signed integers of twenty-four bits.
    I24,
    /// Signed integers of thirty-two bits.
    I32,
    /// Signed integers of sixty-four bits.
    I64,
    /// Unsigned integers of eight bits.
    U8,
    /// Unsigned integers of sixteen bits.
    U16,
    /// Unsigned integers of twenty-four bits.
    U24,
    /// Unsigned integers of thirty-two bits.
    U32,
    /// Unsigned integers of sixty-four bits.
    U64,
    /// Floating point numbers of thirty-two bits.
    F32,
    /// Floating point numbers of sixty-four bits.
    F64,
}

impl SampleFormat {
    /// The formats the engine processes: signed sixteen bit and
    /// thirty-two bit floating point.
    pub open spec fn supported(self) -> bool {
        self == SampleFormat::I16 || self == SampleFormat::F32
    }

    /// Whether the engine processes this format.
    pub fn is_supported(self) -> (yes: bool)
        ensures
            yes == self.supported(),
    {
        match self {
            SampleFormat::I16 => true,
            SampleFormat::F32 => true,
            _ => false,
        }
    }
}

/// The negotiated format of a capture device together with the tuning it
/// is run with.
#[derive(Debug)]
pub struct InputDeviceConfig {
    /// The audio backend the device belongs to.
    pub host_id: String,
    /// The name the device is selected by.
    pub device_name: String,
    /// The number of channels of the device.
    pub channels: u16,
    /// The native rate of the device, in samples per second.
    pub sample_rate: u32,
    /// How the device represents a sample.
    pub sample_format: SampleFormat,
    /// The number of frames of far-end history kept for alignment.
    pub history_len: usize,
    /// The number of calibration packets played before calibration gives up.
    pub calibration_packets: u32,
    /// The length of the device's queue, in seconds of audio.
    pub audio_buffer_seconds: u32,
    /// The quality level handed to the resampler.
    pub resampler_quality: i32,
}

/// The negotiated format of a playback device together with the tuning it
/// is run with.
#[derive(Debug)]
pub struct OutputDeviceConfig {
    /// The audio backend the device belongs to.
    pub host_id: String,
    /// The name the device is selected by.
    pub device_name: String,
    /// The number of channels of the device.
    pub channels: u16,
    /// The native rate of the device, in samples per second.
    pub sample_rate: u32,
    /// How the device represents a sample.
    pub sample_format: SampleFormat,
    /// The number of frames of far-end history kept for alignment.
    pub history_len: usize,
    /// The number of calibration packets played before calibration gives up.
    pub calibration_packets: u32,
    /// The length of the device's queue, in seconds of audio.
    pub audio_buffer_seconds: u32,
    /// The quality level handed to the resampler.
    pub resampler_quality: i32,
    /// The number of frames the device is asked for per callback.
    pub frame_size: u32,
}

impl Clone for InputDeviceConfig {
    fn clone(&self) -> (copy: Self)
        ensures
            copy == *self,
    {
        InputDeviceConfig {
            host_id: self.host_id.clone(),
            device_name: self.device_name.clone(),
            channels: self.channels,
            sample_rate: self.sample_rate,
            sample_format: self.sample_format,
            history_len: self.history_len,
            calibration_packets: self.calibration_packets,
            audio_buffer_seconds: self.audio_buffer_seconds,
            resampler_quality: self.resampler_quality,
        }
    }
}

impl Clone for OutputDeviceConfig {
    fn clone(&self) -> (copy: Self)
        ensures
            copy == *self,
    {
        OutputDeviceConfig {
            host_id: self.host_id.clone(),
            device_name: self.device_name.clone(),
            channels: self.channels,
            sample_rate: self.sample_rate,
            sample_format: self.sample_format,
            history_len: self.history_len,
            calibration_packets: self.calibration_packets,
            audio_buffer_seconds: self.audio_buffer_seconds,
            resampler_quality: self.resampler_quality,
            frame_size: self.frame_size,
        }
    }
}

/// The verdict on a device format: the first rule it breaks, if any.
pub open spec fn checked_format(channels: u16, sample_rate: u32, sample_format: SampleFormat) -> Result<
    (),
    ConfigError,
> {
    if !sample_format.supported() {
        Err(ConfigError::UnsupportedSampleFormat)
    } else if channels == 0 {
        Err(ConfigError::NoChannels)
    } else if sample_rate == 0 {
        Err(ConfigError::InvalidSampleRate)
    } else {
        Ok(())
    }
}

/// Checks a device format: a supported sample format, at least one channel
/// and a sample rate that is not zero.
pub fn check_format(channels: u16, sample_rate: u32, sample_format: SampleFormat) -> (verdict:
    Result<(), ConfigError>)
    ensures
        verdict == checked_format(channels, sample_rate, sample_format),
{
    if !sample_format.is_supported() {
        Err(ConfigError::UnsupportedSampleFormat)
    } else if channels == 0 {
        Err(ConfigError::NoChannels)
    } else if sample_rate == 0 {
        Err(ConfigError::InvalidSampleRate)
    } else {
        Ok(())
    }
}

/// Whether `at` is the first position in `names` that holds `name`.
pub open spec fn first_named(names: Seq<Seq<char>>, name: Seq<char>, at: int) -> bool {
    &&& 0 <= at < names.len()
    &&& names[at] == name
    &&& forall|j: int| 0 <= j < at ==> names[j] != name
}

/// The position of the configuration to use among `names`, the device
/// names of the candidates: the first one called `target` where a target
/// is given, else the first one at all.
pub open spec fn picked(names: Seq<Seq<char>>, target: Option<Seq<char>>) -> Option<int> {
    match target {
        None => if names.len() > 0 {
            Some(0int)
        } else {
            None
        },
        Some(name) => if holds_name(names, name) {
            Some(first_position(names, name))
        } else {
            None
        },
    }
}

/// Whether some position in `names` holds `name`.
pub open spec fn holds_name(names: Seq<Seq<char>>, name: Seq<char>) -> bool {
    exists|at: int| first_named(names, name, at)
}

/// The first position in `names` that holds `name`.
pub open spec fn first_position(names: Seq<Seq<char>>, name: Seq<char>) -> int {
    choose|at: int| first_named(names, name, at)
}

/// The device names of `configs`, in order.
pub open spec fn input_names(configs: Seq<InputDeviceConfig>) -> Seq<Seq<char>> {
    Seq::new(configs.len(), |i: int| configs[i].device_name@)
}

/// The device names of `configs`, in order.
pub open spec fn output_names(configs: Seq<OutputDeviceConfig>) -> Seq<Seq<char>> {
    Seq::new(configs.len(), |i: int| configs[i].device_name@)
}

/// The first position that holds a name is the one that is picked.
pub proof fn lemma_picked_first(names: Seq<Seq<char>>, name: Seq<char>, at: int)
    requires
        first_named(names, name, at),
    ensures
        picked(names, Some(name)) == Some(at),
{
    assert(holds_name(names, name));
    let other = first_position(names, name);
    assert(first_named(names, name, other));
    if other < at {
        assert(names[other] != name);
    } else if at < other {
        assert(names[at] != name);
    }
}

/// Picks the capture configuration to use: the first one whose device is
/// called `target_device` where a name is given, else the first one at all.
pub fn pick_input_config<'a>(
    configs: &'a [InputDeviceConfig],
    target_device: Option<&str>,
) -> (choice: Option<&'a InputDeviceConfig>)
    ensures
        match picked(
            input_names(configs@),
            match target_device {
                Some(name) => Some(name@),
                None => None,
            },
        ) {
            Some(at) => choice == Some(&configs@[at]),
            None => choice is None,
        },
{
    let ghost names = input_names(configs@);
    match target_device {
        None => {
            if configs.len() > 0 {
                Some(&configs[0])
            } else {
                None
            }
        },
        Some(name) => {
            let wanted = name.to_owned();
            let mut i: usize = 0;
            while i < configs.len()
                invariant
                    i <= configs@.len(),
                    wanted@ == name@,
                    target_device == Some(name),
                    names == input_names(configs@),
                    forall|j: int| 0 <= j < i ==> names[j] != name@,
                decreases configs@.len() - i,
            {
                if configs[i].device_name == wanted {
                    proof {
                        assert(names[i as int] == name@);
                        lemma_picked_first(names, name@, i as int);
                    }
                    return Some(&configs[i]);
                }
                assert(names[i as int] != name@);
                i += 1;
            }
            assert(!holds_name(names, name@));
            None
        },
    }
}

/// Picks the playback configuration to use: the first one whose device is
/// called `target_device` where a name is given, else the first one at all.
pub fn pick_output_config<'a>(
    configs: &'a [OutputDeviceConfig],
    target_device: Option<&str>,
) -> (choice: Option<&'a OutputDeviceConfig>)
    ensures
        match picked(
            output_names(configs@),
            match target_device {
                Some(name) => Some(name@),
                None => None,
            },
        ) {
            Some(at) => choice == Some(&configs@[at]),
            None => choice is None,
        },
{
    let ghost names = output_names(configs@);
    match target_device {
        None => {
            if configs.len() > 0 {
                Some(&configs[0])
            } else {
                None
            }
        },
        Some(name) => {
            let wanted = name.to_owned();
            let mut i: usize = 0;
            while i < configs.len()
                invariant
                    i <= configs@.len(),
                    wanted@ == name@,
                    target_device == Some(name),
                    names == output_names(configs@),
                    forall|j: int| 0 <= j < i ==> names[j] != name@,
                decreases configs@.len() - i,
            {
                if configs[i].device_name == wanted {
                    proof {
                        assert(names[i as int] == name@);
                        lemma_picked_first(names, name@, i as int);
                    }
                    return Some(&configs[i]);
                }
                assert(names[i as int] != name@);
                i += 1;
            }
            assert(!holds_name(names, name@));
            None
        },
    }
}

/// The first entry of every group that has one, in the order of the groups.
pub open spec fn first_entries<T>(groups: Seq<Seq<T>>) -> Seq<T>
    decreases groups.len(),
{
    if groups.len() == 0 {
        Seq::empty()
    } else if groups.last().len() == 0 {
        first_entries(groups.drop_last())
    } else {
        first_entries(groups.drop_last()).push(groups.last()[0])
    }
}

/// The views of the groups of `groups`, in order.
pub open spec fn group_views<T>(groups: Seq<Vec<T>>) -> Seq<Seq<T>> {
    Seq::new(groups.len(), |i: int| groups[i]@)
}

/// Keeps the default configuration of every device: the first entry of
/// each group of configurations, skipping the groups that are empty.
pub fn first_of_each<T>(groups: Vec<Vec<T>>) -> (firsts: Vec<T>)
    ensures
        firsts@ == first_entries(group_views(groups@)),
{
    let mut groups = groups;
    let ghost all = group_views(groups@);
    let mut firsts: Vec<T> = Vec::new();
    let n = groups.len();
    let mut i: usize = 0;
    assert(all.take(0) =~= Seq::<Seq<T>>::empty());
    while i < n
        invariant
            n == groups@.len(),
            n == all.len(),
            i <= n,
            forall|j: int| i <= j < n ==> groups@[j]@ == all[j],
            firsts@ == first_entries(all.take(i as int)),
        decreases n - i,
    {
        proof {
            assert(all.take(i + 1).drop_last() =~= all.take(i as int));
            assert(all.take(i + 1).last() == all[i as int]);
        }
        if groups[i].len() > 0 {
            let first = groups[i].remove(0);
            firsts.push(first);
        }
        i += 1;
    }
    assert(all.take(n as int) =~= all);
    firsts
}

} // verus!
