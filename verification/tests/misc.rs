use melodeus_aec::config::SampleFormat;
use melodeus_aec::devices::{clean_label, wanted_device, DeviceCache, InputDeviceInfo};
use melodeus_aec::channels::{downmix, interleave, upmix};
use melodeus_aec::payload::{
    calloc_payload, grown_tail, header_size, layout_for_payload, realloc_payload, PayloadLayout,
    DEFAULT_ALIGN,
};
use melodeus_aec::resample::{resample, source_frames};

#[test]
fn interleave_weaves_the_channels_frame_by_frame() {
    assert_eq!(interleave(&vec![vec![1, 2, 3], vec![4, 5, 6]]), Some(vec![1, 4, 2, 5, 3, 6]));
    assert_eq!(interleave(&vec![vec![1, 2, 3]]), Some(vec![1, 2, 3]));
    assert_eq!(
        interleave(&vec![vec![0.5f32, 1.5], vec![-0.5, -1.5], vec![9.0, 8.0]]),
        Some(vec![0.5, -0.5, 9.0, 1.5, -1.5, 8.0])
    );
}

#[test]
fn interleave_takes_the_frame_count_from_the_first_channel() {
    assert_eq!(interleave(&vec![vec![1], vec![2, 3]]), Some(vec![1, 2]));
}

#[test]
fn interleave_refuses_what_it_cannot_weave() {
    assert_eq!(interleave(&Vec::<Vec<i16>>::new()), None);
    assert_eq!(interleave(&vec![Vec::<i16>::new()]), None);
    assert_eq!(interleave(&vec![Vec::<i16>::new(), vec![1]]), None);
    assert_eq!(interleave(&vec![vec![1, 2], vec![3]]), None);
}

#[test]
fn only_capture_devices_with_an_id_are_wanted() {
    assert!(wanted_device(Some("audioinput"), "abc"));
    assert!(!wanted_device(Some("audioinput"), ""));
    assert!(!wanted_device(Some("audiooutput"), "abc"));
    assert!(!wanted_device(Some("videoinput"), "abc"));
    assert!(!wanted_device(Some("AudioInput"), "abc"));
    assert!(!wanted_device(Some(""), "abc"));
    assert!(!wanted_device(None, "abc"));
}

#[test]
fn an_empty_label_is_no_label() {
    assert_eq!(clean_label(Some("Microphone".to_string())), Some("Microphone".to_string()));
    assert_eq!(clean_label(Some(" ".to_string())), Some(" ".to_string()));
    assert_eq!(clean_label(Some(String::new())), None);
    assert_eq!(clean_label(None), None);
}

#[test]
fn a_probed_device_delivers_float_samples() {
    let info = InputDeviceInfo::probed("id-1".to_string(), Some(String::new()), 48_000, 2);
    assert_eq!(info.device_id, "id-1");
    assert_eq!(info.label, None);
    assert_eq!(info.sample_rate, 48_000);
    assert_eq!(info.channels, 2);
    assert_eq!(info.sample_format, SampleFormat::F32);
    assert_eq!(info.device_name(), "id-1");
    let info = InputDeviceInfo::probed("id-2".to_string(), Some("Desk".to_string()), 44_100, 1);
    assert_eq!(info.label, Some("Desk".to_string()));
    assert_eq!(info.device_name(), "Desk");
    let copy = info.clone();
    assert_eq!(copy.device_id, "id-2");
    assert_eq!(copy.label, Some("Desk".to_string()));
    assert_eq!(copy.sample_rate, 44_100);
    assert_eq!(copy.channels, 1);
}

#[test]
fn a_probed_device_becomes_a_configuration() {
    let info = InputDeviceInfo::probed("id-2".to_string(), Some("Desk".to_string()), 44_100, 2);
    let config = info.to_config("browser", 120, 15, 5, 5).unwrap();
    assert_eq!(config.host_id, "browser");
    assert_eq!(config.device_name, "Desk");
    assert_eq!(config.channels, 2);
    assert_eq!(config.sample_rate, 44_100);
    assert_eq!(config.sample_format, SampleFormat::F32);
    assert_eq!(config.history_len, 120);
    assert_eq!(config.calibration_packets, 15);
    assert_eq!(config.audio_buffer_seconds, 5);
    assert_eq!(config.resampler_quality, 5);
    let wide = InputDeviceInfo::probed("w".to_string(), None, 44_100, 65_535);
    assert_eq!(wide.to_config("browser", 1, 1, 1, 1).unwrap().channels, 65_535);
    let too_wide = InputDeviceInfo::probed("w".to_string(), None, 44_100, 65_536);
    assert!(too_wide.to_config("browser", 1, 1, 1, 1).is_none());
}

#[test]
fn the_device_list_is_kept_until_it_is_invalidated() {
    let mut cache = DeviceCache::new();
    assert!(cache.get().is_none());
    cache.populate(vec![InputDeviceInfo::probed("a".to_string(), None, 1, 1)]);
    assert_eq!(cache.get().unwrap().len(), 1);
    assert_eq!(cache.get().unwrap()[0].device_id, "a");
    cache.populate(Vec::new());
    assert_eq!(cache.get().unwrap().len(), 0);
    cache.invalidate();
    assert!(cache.get().is_none());
}

#[test]
fn a_layout_holds_the_header_and_the_payload() {
    let header = header_size();
    assert_eq!(header, std::mem::size_of::<usize>());
    assert_eq!(DEFAULT_ALIGN, 16);
    assert_eq!(layout_for_payload(10), Some(PayloadLayout { size: 10 + header, align: 16 }));
    assert_eq!(layout_for_payload(0), Some(PayloadLayout { size: header, align: 16 }));
}

#[test]
fn a_layout_must_fit_below_the_largest_size() {
    let header = header_size();
    let largest = isize::MAX as usize - 15 - header;
    assert_eq!(
        layout_for_payload(largest),
        Some(PayloadLayout { size: isize::MAX as usize - 15, align: 16 })
    );
    assert_eq!(layout_for_payload(largest + 1), None);
    assert_eq!(layout_for_payload(usize::MAX), None);
    assert_eq!(layout_for_payload(usize::MAX - header), None);
    let std_layout = std::alloc::Layout::from_size_align(largest + header, 16);
    assert!(std_layout.is_ok());
    assert!(std::alloc::Layout::from_size_align(largest + header + 1, 16).is_err());
}

#[test]
fn payload_sizes_are_never_zero() {
    assert_eq!(calloc_payload(3, 4), 12);
    assert_eq!(calloc_payload(0, 5), 1);
    assert_eq!(calloc_payload(5, 0), 1);
    assert_eq!(calloc_payload(usize::MAX, 2), 1);
    assert_eq!(calloc_payload(usize::MAX, 1), usize::MAX);
    assert_eq!(realloc_payload(0), 1);
    assert_eq!(realloc_payload(7), 7);
    assert_eq!(grown_tail(10, 16), 6);
    assert_eq!(grown_tail(16, 10), 0);
    assert_eq!(grown_tail(16, 16), 0);
}

#[test]
fn resampling_to_the_same_rate_changes_nothing() {
    let input = vec![1i16, -2, 3, -4, 5, -6];
    assert_eq!(resample(&input, 1, 48_000, 48_000), Some(input.clone()));
    assert_eq!(resample(&input, 2, 16_000, 16_000), Some(input.clone()));
    assert_eq!(resample(&input, 3, 1, 1), Some(input));
}

#[test]
fn upsampling_interpolates_between_the_frames() {
    assert_eq!(
        resample(&[0, 100, 200, 300], 1, 2, 4),
        Some(vec![0, 50, 100, 150, 200, 250, 300, 300])
    );
    assert_eq!(resample(&[10, 3], 1, 1, 2), Some(vec![10, 7, 3, 3]));
    assert_eq!(resample(&[-10, -3], 1, 1, 2), Some(vec![-10, -7, -3, -3]));
    assert_eq!(
        resample(&[i16::MIN, i16::MAX], 1, 1, 2),
        Some(vec![i16::MIN, -1, i16::MAX, i16::MAX])
    );
}

#[test]
fn downsampling_picks_the_frames_at_the_new_positions() {
    assert_eq!(resample(&[0, 10, 20, 30], 1, 4, 2), Some(vec![0, 20]));
    assert_eq!(resample(&[0, 10, 20, 30, 40, 50], 1, 48_000, 16_000), Some(vec![0, 30]));
    assert_eq!(resample(&[0, 30, 60], 1, 3, 2), Some(vec![0, 45]));
    assert_eq!(resample(&[5], 1, 3, 2), Some(Vec::new()));
}

#[test]
fn resampling_keeps_the_channels_apart() {
    assert_eq!(
        resample(&[0, 100, 10, 200], 2, 1, 2),
        Some(vec![0, 100, 5, 150, 10, 200, 10, 200])
    );
    assert_eq!(resample(&[1, 2, 3, 4, 5, 6, 7, 8], 2, 2, 1), Some(vec![1, 2, 5, 6]));
}

#[test]
fn resampling_refuses_broken_input() {
    assert_eq!(resample(&[1, 2], 0, 1, 1), None);
    assert_eq!(resample(&[1, 2], 1, 0, 1), None);
    assert_eq!(resample(&[1, 2], 1, 1, 0), None);
    assert_eq!(resample(&[1, 2, 3], 2, 1, 1), None);
    assert_eq!(resample(&[], 2, 1, 1), Some(Vec::new()));
}

#[test]
fn downmix_takes_the_mean_of_every_frame() {
    assert_eq!(downmix(&[10, 20, 30, 50], 2), Some(vec![15, 40]));
    assert_eq!(downmix(&[1, 2, 3, 4, 5, 6], 3), Some(vec![2, 5]));
    assert_eq!(downmix(&[7, -7, 9], 1), Some(vec![7, -7, 9]));
    assert_eq!(downmix(&[], 4), Some(Vec::new()));
}

#[test]
fn downmix_rounds_towards_zero() {
    assert_eq!(downmix(&[1, 2], 2), Some(vec![1]));
    assert_eq!(downmix(&[-1, -2], 2), Some(vec![-1]));
    assert_eq!(downmix(&[-1, 0], 2), Some(vec![0]));
    assert_eq!(downmix(&[i16::MIN, i16::MIN, i16::MAX, i16::MAX], 2), Some(vec![i16::MIN, i16::MAX]));
}

#[test]
fn downmix_refuses_broken_frames() {
    assert_eq!(downmix(&[1, 2, 3], 2), None);
    assert_eq!(downmix(&[1, 2], 0), None);
    assert_eq!(downmix(&[], 0), None);
}

#[test]
fn upmix_repeats_every_sample_on_every_channel() {
    assert_eq!(upmix(&[1, -2], 3), Some(vec![1, 1, 1, -2, -2, -2]));
    assert_eq!(upmix(&[5, 6], 1), Some(vec![5, 6]));
    assert_eq!(upmix(&[5, 6], 0), Some(Vec::new()));
    assert_eq!(upmix(&[], 2), Some(Vec::new()));
}

#[test]
fn enough_source_frames_are_asked_for() {
    assert_eq!(source_frames(480, 16_000, 48_000), Some(160));
    assert_eq!(source_frames(441, 16_000, 44_100), Some(160));
    assert_eq!(source_frames(128, 16_000, 48_000), Some(43));
    assert_eq!(source_frames(1, 48_000, 16_000), Some(3));
    assert_eq!(source_frames(0, 48_000, 16_000), Some(0));
    assert_eq!(source_frames(7, 5, 5), Some(7));
    assert_eq!(source_frames(1, 0, 5), None);
    assert_eq!(source_frames(1, 5, 0), None);
    assert_eq!(source_frames(usize::MAX, u32::MAX, 1), None);
    for wanted in [1usize, 99, 128, 480] {
        let needed = source_frames(wanted, 16_000, 44_100).unwrap();
        let input = vec![0i16; needed];
        assert!(resample(&input, 1, 16_000, 44_100).unwrap().len() >= wanted);
        let fewer = vec![0i16; needed - 1];
        assert!(resample(&fewer, 1, 16_000, 44_100).unwrap().len() < wanted);
    }
}
