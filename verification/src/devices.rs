//! What is known of the capture devices the host offers: which of the
//! enumerated devices are capture devices worth probing, what a probe found,
//! and the list that is kept once it has been made.

use vstd::prelude::*;
use crate::config::{InputDeviceConfig, SampleFormat};

verus! {

/// What a probe found out about one capture device.
#[derive(Debug)]
pub struct InputDeviceInfo {
    /// The id the host knows the device by.
    pub device_id: String,
    /// The name the device shows to people, where it has one.
    pub label: Option<String>,
    /// The native rate of the device, in samples per second.
    pub sample_rate: u32,
    /// The number of channels of the device.
    pub channels: usize,
    /// How the device represents a sample.
    pub sample_format: SampleFormat,
}

impl Clone for InputDeviceInfo {
    fn clone(&self) -> (copy: Self)
        ensures
            copy == *self,
    {
        InputDeviceInfo {
            device_id: self.device_id.clone(),
            label: match &self.label {
                Some(text) => Some(text.clone()),
                None => None,
            },
            sample_rate: self.sample_rate,
            channels: self.channels,
            sample_format: self.sample_format,
        }
    }
}

/// Whether an enumerated device of `kind` with `device_id` is a capture
/// device that can be probed: its kind is `audioinput` and it has an id.
pub open spec fn probeable(kind: Option<Seq<char>>, device_id: Seq<char>) -> bool {
    kind == Some("audioinput"@) && device_id.len() > 0
}

/// The label to keep for a device that reported `label`: none where it
/// reported none or an empty one.
pub open spec fn kept_label(label: Option<String>) -> Option<String> {
    match label {
        Some(text) => if text@.len() == 0 {
            None
        } else {
            Some(text)
        },
        None => None,
    }
}

/// The name a device goes by: its label where it has one, else its id.
pub open spec fn name_of(info: InputDeviceInfo) -> Seq<char> {
    match info.label {
        Some(text) => text@,
        None => info.device_id@,
    }
}

/// Decides whether an enumerated device is a capture device to probe.
pub fn wanted_device(kind: Option<&str>, device_id: &str) -> (yes: bool)
    ensures
        yes == probeable(
            match kind {
                Some(k) => Some(k@),
                None => None,
            },
            device_id@,
        ),
{
    match kind {
        None => false,
        Some(k) => {
            let wanted = "audioinput".to_owned();
            k.to_owned() == wanted && !device_id.is_empty()
        },
    }
}

/// Drops a label that is empty.
pub fn clean_label(label: Option<String>) -> (kept: Option<String>)
    ensures
        kept == kept_label(label),
{
    match label {
        Some(text) => if text.as_str().is_empty() {
            None
        } else {
            Some(text)
        },
        None => None,
    }
}

impl InputDeviceInfo {
    /// The record of a probed device. An empty label is dropped, and the
    /// sample format is thirty-two bit floating point, the only one that a
    /// browser delivers.
    pub fn probed(device_id: String, label: Option<String>, sample_rate: u32, channels: usize) -> (info:
        InputDeviceInfo)
        ensures
            info == (InputDeviceInfo {
                device_id,
                label: kept_label(label),
                sample_rate,
                channels,
                sample_format: SampleFormat::F32,
            }),
    {
        InputDeviceInfo {
            device_id,
            label: clean_label(label),
            sample_rate,
            channels,
            sample_format: SampleFormat::F32,
        }
    }

    /// The name the device goes by: its label where it has one, else its id.
    pub fn device_name(&self) -> (name: String)
        ensures
            name@ == name_of(*self),
    {
        match &self.label {
            Some(text) => text.clone(),
            None => self.device_id.clone(),
        }
    }

    /// The configuration to attach the device with under the given tuning,
    /// or `None` where the device has more channels than a configuration
    /// can name.
    pub fn to_config(
        &self,
        host_id: &str,
        history_len: usize,
        calibration_packets: u32,
        audio_buffer_seconds: u32,
        resampler_quality: i32,
    ) -> (config: Option<InputDeviceConfig>)
        ensures
            config is Some <==> self.channels <= u16::MAX,
            config matches Some(c) ==> {
                &&& c.host_id@ == host_id@
                &&& c.device_name@ == name_of(*self)
                &&& c.channels == self.channels
                &&& c.sample_rate == self.sample_rate
                &&& c.sample_format == self.sample_format
                &&& c.history_len == history_len
                &&& c.calibration_packets == calibration_packets
                &&& c.audio_buffer_seconds == audio_buffer_seconds
                &&& c.resampler_quality == resampler_quality
            },
    {
        if self.channels > u16::MAX as usize {
            return None;
        }
        Some(
            InputDeviceConfig {
                host_id: host_id.to_owned(),
                device_name: self.device_name(),
                channels: self.channels as u16,
                sample_rate: self.sample_rate,
                sample_format: self.sample_format,
                history_len,
                calibration_packets,
                audio_buffer_seconds,
                resampler_quality,
            },
        )
    }
}

/// The list of capture devices, kept from the first enumeration until it is
/// declared stale.
pub struct DeviceCache {
    devices: Option<Vec<InputDeviceInfo>>,
}

impl View for DeviceCache {
    type V = Option<Seq<InputDeviceInfo>>;

    /// The list that is kept, if one is.
    closed spec fn view(&self) -> Option<Seq<InputDeviceInfo>> {
        match self.devices {
            Some(list) => Some(list@),
            None => None,
        }
    }
}

impl DeviceCache {
    /// A cache that holds no list.
    pub fn new() -> (cache: DeviceCache)
        ensures
            cache@ is None,
    {
        DeviceCache { devices: None }
    }

    /// The list that is kept, if one is.
    pub fn get(&self) -> (list: Option<&Vec<InputDeviceInfo>>)
        ensures
            match list {
                Some(devices) => self@ == Some(devices@),
                None => self@ is None,
            },
    {
        match &self.devices {
            Some(list) => Some(list),
            None => None,
        }
    }

    /// Keeps `devices` as the list, in place of any earlier one.
    pub fn populate(&mut self, devices: Vec<InputDeviceInfo>)
        ensures
            final(self)@ == Some(devices@),
    {
        self.devices = Some(devices);
    }

    /// Declares the list stale: none is kept any more.
    pub fn invalidate(&mut self)
        ensures
            final(self)@ is None,
    {
        self.devices = None;
    }
}

} // verus!
