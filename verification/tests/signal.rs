use melodeus_aec::detect::{detect, Detection, FULL_CONFIDENCE, MAX_PATTERN_LEN};
use melodeus_aec::pattern::{make_pattern, AMPLITUDE, CHIP_LEN, PATTERN_LEN};
use melodeus_aec::signal::{correlate, energy_of, inner_product, window_energy};

#[test]
fn inner_product_sums_the_products() {
    assert_eq!(inner_product(&[1, 2, 3], &[4, -5, 6]), Some(4 - 10 + 18));
    assert_eq!(inner_product(&[1, 2], &[4, -5, 6]), Some(-6));
    assert_eq!(inner_product(&[], &[]), Some(0));
    assert_eq!(inner_product(&[1, 2, 3], &[4, 5]), None);
}

#[test]
fn inner_product_holds_full_scale_samples() {
    let loud = vec![i16::MIN; 1000];
    assert_eq!(inner_product(&loud, &loud), Some(1000 * 32768 * 32768));
    let other = vec![i16::MAX; 1000];
    assert_eq!(inner_product(&loud, &other), Some(-1000 * 32768 * 32767));
}

#[test]
fn energy_is_the_sum_of_squares() {
    assert_eq!(energy_of(&[3, -4]), 25);
    assert_eq!(energy_of(&[]), 0);
    assert_eq!(energy_of(&[0, 0, 0]), 0);
}

#[test]
fn correlate_reads_the_capture_at_the_lag() {
    let capture = [0i16, 0, 3, -2, 1, 0];
    let pattern = [3i16, -2, 1];
    assert_eq!(correlate(&pattern, &capture, 2), Some(14));
    assert_eq!(correlate(&pattern, &capture, 0), Some(-0 + 0 + 3));
    assert_eq!(correlate(&pattern, &capture, 3), Some(-6 - 2));
    assert_eq!(correlate(&pattern, &capture, 4), None);
    assert_eq!(correlate(&pattern, &capture, usize::MAX), None);
}

#[test]
fn window_energy_reads_the_capture_at_the_lag() {
    let capture = [1i16, 2, 3, 4];
    assert_eq!(window_energy(&capture, 1, 2), Some(13));
    assert_eq!(window_energy(&capture, 0, 4), Some(30));
    assert_eq!(window_energy(&capture, 4, 0), Some(0));
    assert_eq!(window_energy(&capture, 3, 2), None);
}

#[test]
fn detect_finds_a_delayed_copy_at_its_delay() {
    let pattern = [3i16, -2, 1];
    let capture = [0i16, 0, 0, 3, -2, 1, 0, 0];
    assert_eq!(detect(&pattern, &capture), Some(Detection { lag: 3, confidence: FULL_CONFIDENCE }));
}

#[test]
fn detect_finds_every_delay_of_the_calibration_pattern() {
    let pattern = make_pattern();
    for delay in [0usize, 1, 7, 480, 1000] {
        let mut capture = vec![0i16; delay];
        capture.extend_from_slice(&pattern);
        capture.extend_from_slice(&vec![0i16; 33]);
        assert_eq!(detect(&pattern, &capture), Some(Detection { lag: delay, confidence: 100 }));
    }
}

#[test]
fn detect_takes_the_earliest_of_equal_peaks() {
    let pattern = [1i16, 1];
    let capture = [1i16, 1, 1, 1];
    assert_eq!(detect(&pattern, &capture).unwrap().lag, 0);
}

#[test]
fn detect_rates_a_match_by_the_squared_correlation() {
    // correlation 6, pattern energy 5, capture energy 8: 100 * 36 / 40
    assert_eq!(detect(&[2, 1], &[2, 2]), Some(Detection { lag: 0, confidence: 90 }));
    // a quieter copy still matches perfectly
    assert_eq!(detect(&[4, 4], &[0, 2, 2, 0]), Some(Detection { lag: 1, confidence: 100 }));
}

#[test]
fn detect_has_no_confidence_in_silence_or_in_an_inverted_copy() {
    assert_eq!(detect(&[5, 5], &[0, 0, 0]), Some(Detection { lag: 0, confidence: 0 }));
    assert_eq!(detect(&[5, 5], &[-5, -5]), Some(Detection { lag: 0, confidence: 0 }));
    assert_eq!(detect(&[0, 0], &[1, 2, 3]), Some(Detection { lag: 0, confidence: 0 }));
}

#[test]
fn detect_finds_nothing_where_it_cannot_search() {
    assert_eq!(detect(&[], &[1, 2, 3]), None);
    assert_eq!(detect(&[1, 2, 3], &[1, 2]), None);
    let long = vec![1i16; MAX_PATTERN_LEN + 1];
    assert_eq!(detect(&long, &long), None);
}

#[test]
fn the_calibration_pattern_is_a_barker_burst() {
    let pattern = make_pattern();
    assert_eq!(pattern.len(), PATTERN_LEN);
    assert_eq!(PATTERN_LEN, 13 * CHIP_LEN);
    let signs: Vec<i16> = (0..13).map(|k| pattern[k * CHIP_LEN] / AMPLITUDE).collect();
    assert_eq!(signs, vec![1, 1, 1, 1, 1, -1, -1, 1, 1, -1, 1, -1, 1]);
    for (i, sample) in pattern.iter().enumerate() {
        assert_eq!(*sample, pattern[(i / CHIP_LEN) * CHIP_LEN]);
    }
}
