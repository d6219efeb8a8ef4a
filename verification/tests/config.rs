use melodeus_aec::config::{
    aec_config, check_format, first_of_each, pick_input_config, pick_output_config, AecConfig,
    ConfigError, InputDeviceConfig, OutputDeviceConfig, SampleFormat, AUDIO_BUFFER_SECONDS,
    CALIBRATION_PACKETS, FILTER_LENGTH_MS, FRAME_SIZE_MS, HISTORY_LEN, OUTPUT_FRAME_SIZE,
    RESAMPLER_QUALITY, TARGET_SAMPLE_RATE,
};

fn input(name: &str) -> InputDeviceConfig {
    InputDeviceConfig {
        host_id: "host".to_string(),
        device_name: name.to_string(),
        channels: 1,
        sample_rate: 48_000,
        sample_format: SampleFormat::F32,
        history_len: HISTORY_LEN,
        calibration_packets: CALIBRATION_PACKETS,
        audio_buffer_seconds: AUDIO_BUFFER_SECONDS,
        resampler_quality: RESAMPLER_QUALITY,
    }
}

fn output(name: &str, channels: u16) -> OutputDeviceConfig {
    OutputDeviceConfig {
        host_id: "host".to_string(),
        device_name: name.to_string(),
        channels,
        sample_rate: 48_000,
        sample_format: SampleFormat::F32,
        history_len: HISTORY_LEN,
        calibration_packets: CALIBRATION_PACKETS,
        audio_buffer_seconds: AUDIO_BUFFER_SECONDS,
        resampler_quality: RESAMPLER_QUALITY,
        frame_size: OUTPUT_FRAME_SIZE,
    }
}

#[test]
fn the_constants_are_the_documented_ones() {
    assert_eq!(HISTORY_LEN, 120);
    assert_eq!(CALIBRATION_PACKETS, 15);
    assert_eq!(AUDIO_BUFFER_SECONDS, 5);
    assert_eq!(RESAMPLER_QUALITY, 5);
    assert_eq!(OUTPUT_FRAME_SIZE, 480);
    assert_eq!(TARGET_SAMPLE_RATE, 16_000);
    assert_eq!(FRAME_SIZE_MS, 10);
    assert_eq!(FILTER_LENGTH_MS, 100);
}

#[test]
fn the_engine_configuration_is_derived_from_the_target_rate() {
    let config = aec_config();
    assert_eq!(config, AecConfig { sample_rate: 16_000, frame_size: 160, filter_length: 1600 });
    assert_eq!(AecConfig::for_rate(TARGET_SAMPLE_RATE), Ok(config));
    assert_eq!(AecConfig::new(16_000, 160, 1600), Ok(config));
}

#[test]
fn lengths_follow_from_the_rate() {
    assert_eq!(
        AecConfig::for_rate(48_000),
        Ok(AecConfig { sample_rate: 48_000, frame_size: 480, filter_length: 4800 })
    );
    assert_eq!(
        AecConfig::for_rate(44_100),
        Ok(AecConfig { sample_rate: 44_100, frame_size: 441, filter_length: 4410 })
    );
    assert_eq!(
        AecConfig::for_rate(100),
        Ok(AecConfig { sample_rate: 100, frame_size: 1, filter_length: 10 })
    );
    assert_eq!(
        AecConfig::for_rate(199),
        Ok(AecConfig { sample_rate: 199, frame_size: 1, filter_length: 19 })
    );
}

#[test]
fn a_rate_too_low_for_a_frame_is_invalid() {
    assert_eq!(AecConfig::for_rate(0), Err(ConfigError::InvalidSampleRate));
    assert_eq!(AecConfig::for_rate(99), Err(ConfigError::InvalidSampleRate));
    assert_eq!(AecConfig::new(0, 0, 0), Err(ConfigError::InvalidSampleRate));
    assert_eq!(AecConfig::new(99, 160, 1600), Err(ConfigError::InvalidSampleRate));
}

#[test]
fn lengths_cannot_be_chosen_independently() {
    assert_eq!(AecConfig::new(16_000, 161, 1600), Err(ConfigError::FrameSizeMismatch));
    assert_eq!(AecConfig::new(16_000, 0, 1600), Err(ConfigError::FrameSizeMismatch));
    assert_eq!(AecConfig::new(16_000, 160, 1599), Err(ConfigError::FilterLengthMismatch));
    assert_eq!(AecConfig::new(16_000, 161, 1599), Err(ConfigError::FrameSizeMismatch));
}

#[test]
fn only_sixteen_bit_and_float_samples_are_supported() {
    assert!(SampleFormat::I16.is_supported());
    assert!(SampleFormat::F32.is_supported());
    for format in [
        SampleFormat::I8,
        SampleFormat::I24,
        SampleFormat::I32,
        SampleFormat::I64,
        SampleFormat::U8,
        SampleFormat::U16,
        SampleFormat::U24,
        SampleFormat::U32,
        SampleFormat::U64,
        SampleFormat::F64,
    ] {
        assert!(!format.is_supported());
        assert_eq!(check_format(2, 48_000, format), Err(ConfigError::UnsupportedSampleFormat));
    }
}

#[test]
fn a_format_is_checked_rule_by_rule() {
    assert_eq!(check_format(2, 48_000, SampleFormat::F32), Ok(()));
    assert_eq!(check_format(1, 1, SampleFormat::I16), Ok(()));
    assert_eq!(check_format(0, 48_000, SampleFormat::F32), Err(ConfigError::NoChannels));
    assert_eq!(check_format(2, 0, SampleFormat::F32), Err(ConfigError::InvalidSampleRate));
    assert_eq!(check_format(0, 0, SampleFormat::F32), Err(ConfigError::NoChannels));
    assert_eq!(check_format(0, 0, SampleFormat::U8), Err(ConfigError::UnsupportedSampleFormat));
}

#[test]
fn picking_without_a_name_takes_the_first() {
    let configs = vec![input("a"), input("b")];
    assert_eq!(pick_input_config(&configs, None).unwrap().device_name, "a");
    let none: Vec<InputDeviceConfig> = Vec::new();
    assert!(pick_input_config(&none, None).is_none());
    assert!(pick_input_config(&none, Some("a")).is_none());
}

#[test]
fn picking_by_name_takes_the_first_of_that_name() {
    let mut second = input("b");
    second.sample_rate = 1;
    let mut third = input("b");
    third.sample_rate = 2;
    let configs = vec![input("a"), second, third, input("c")];
    let picked = pick_input_config(&configs, Some("b")).unwrap();
    assert_eq!(picked.device_name, "b");
    assert_eq!(picked.sample_rate, 1);
    assert_eq!(pick_input_config(&configs, Some("c")).unwrap().device_name, "c");
    assert!(pick_input_config(&configs, Some("d")).is_none());
    assert!(pick_input_config(&configs, Some("")).is_none());
    assert!(pick_input_config(&configs, Some("B")).is_none());
}

#[test]
fn outputs_are_picked_like_inputs() {
    let configs = vec![output("x", 1), output("y", 2), output("y", 6)];
    assert_eq!(pick_output_config(&configs, None).unwrap().device_name, "x");
    assert_eq!(pick_output_config(&configs, Some("y")).unwrap().channels, 2);
    assert!(pick_output_config(&configs, Some("z")).is_none());
    let none: Vec<OutputDeviceConfig> = Vec::new();
    assert!(pick_output_config(&none, None).is_none());
}

#[test]
fn the_first_entry_of_every_group_is_its_default() {
    let groups = vec![vec![1, 2, 3], vec![], vec![4], vec![5, 6], vec![]];
    assert_eq!(first_of_each(groups), vec![1, 4, 5]);
    let nothing: Vec<Vec<u8>> = Vec::new();
    assert_eq!(first_of_each(nothing), Vec::<u8>::new());
    let groups = vec![vec![output("a", 1), output("b", 2)], vec![output("c", 3)]];
    let names: Vec<String> = first_of_each(groups).into_iter().map(|c| c.device_name).collect();
    assert_eq!(names, vec!["a".to_string(), "c".to_string()]);
}

#[test]
fn a_cloned_configuration_equals_the_original() {
    let original = output("speakers", 2);
    let copy = original.clone();
    assert_eq!(copy.host_id, original.host_id);
    assert_eq!(copy.device_name, original.device_name);
    assert_eq!(copy.channels, original.channels);
    assert_eq!(copy.sample_rate, original.sample_rate);
    assert_eq!(copy.sample_format, original.sample_format);
    assert_eq!(copy.history_len, original.history_len);
    assert_eq!(copy.calibration_packets, original.calibration_packets);
    assert_eq!(copy.audio_buffer_seconds, original.audio_buffer_seconds);
    assert_eq!(copy.resampler_quality, original.resampler_quality);
    assert_eq!(copy.frame_size, original.frame_size);
    let original = input("microphone");
    let copy = original.clone();
    assert_eq!(copy.device_name, "microphone");
    assert_eq!(copy.sample_rate, original.sample_rate);
}

#[test]
fn every_rejection_says_what_went_wrong() {
    assert_eq!(
        ConfigError::InvalidSampleRate.describe(),
        "the sample rate is zero or too low for a frame"
    );
    assert_eq!(
        ConfigError::FrameSizeMismatch.describe(),
        "the frame size does not follow from the sample rate"
    );
    assert_eq!(
        ConfigError::FilterLengthMismatch.describe(),
        "the filter length does not follow from the sample rate"
    );
    assert_eq!(
        ConfigError::UnsupportedSampleFormat.describe(),
        "the sample format is not supported"
    );
    assert_eq!(ConfigError::NoChannels.describe(), "the device has no channels");
    assert_eq!(ConfigError::BufferSize.describe(), "a device queue would be empty or too large");
    assert_eq!(ConfigError::TooManyDevices.describe(), "too many devices are attached");
}
