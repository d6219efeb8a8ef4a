use melodeus_aec::calibrate::{
    CalibrationPolicy, CalibrationState, CalibrationStatus, Calibrator, DelayStats,
    MAX_DELAY_VARIANCE, MIN_CONFIDENCE, SETTLE_PACKETS,
};
use melodeus_aec::config::CALIBRATION_PACKETS;
use melodeus_aec::detect::Detection;
use melodeus_aec::pattern::make_pattern;

fn delayed(pattern: &[i16], delay: usize, tail: usize) -> Vec<i16> {
    let mut capture = vec![0i16; delay];
    capture.extend_from_slice(pattern);
    capture.extend_from_slice(&vec![0i16; tail]);
    capture
}

#[test]
fn the_standard_policy_uses_the_engine_constants() {
    assert_eq!(
        CalibrationPolicy::standard(15),
        CalibrationPolicy {
            packets: 15,
            min_confidence: MIN_CONFIDENCE,
            settle_packets: SETTLE_PACKETS,
            max_variance: MAX_DELAY_VARIANCE,
        }
    );
}

#[test]
fn delay_stats_keep_count_sum_and_squares() {
    let mut stats = DelayStats { count: 0, sum: 0, sum_squares: 0 };
    assert_eq!(stats.average(), 0);
    assert!(!stats.is_steady(1000));
    stats.push(10);
    stats.push(12);
    assert_eq!(stats, DelayStats { count: 2, sum: 22, sum_squares: 244 });
    assert_eq!(stats.average(), 11);
    // 2 * 244 - 22 * 22 = 4, against a variance of one: 1 * 2 * 2 = 4
    assert!(stats.is_steady(1));
    assert!(!stats.is_steady(0));
    stats.push(u32::MAX);
    assert_eq!(stats.sum, 22 + 4294967295);
    assert_eq!(stats.sum_squares, 244 + 4294967295u128 * 4294967295u128);
    assert_eq!(stats.average(), (22 + 4294967295) / 3);
}

#[test]
fn a_fresh_calibration_is_pending() {
    let c = Calibrator::new(CalibrationPolicy::standard(15));
    assert_eq!(c.status(), CalibrationStatus::Pending);
    assert_eq!(
        c.state(),
        CalibrationState {
            estimated_delay_samples: 0,
            confidence: 0,
            packets_observed: 0,
            is_calibrated: false,
        }
    );
}

#[test]
fn a_calibration_without_budget_has_failed() {
    let mut c = Calibrator::new(CalibrationPolicy::standard(0));
    assert_eq!(c.status(), CalibrationStatus::Failed);
    assert_eq!(c.absorb(Some(Detection { lag: 5, confidence: 100 })), CalibrationStatus::Failed);
    assert_eq!(c.state().packets_observed, 0);
}

#[test]
fn calibration_converges_to_the_synthetic_delay() {
    let pattern = make_pattern();
    for delay in [0usize, 1, 137, 480, 4000] {
        let capture = delayed(&pattern, delay, 64);
        let mut c = Calibrator::new(CalibrationPolicy::standard(CALIBRATION_PACKETS));
        let mut packets = 0;
        while c.status() == CalibrationStatus::Pending {
            c.observe(&pattern, &capture);
            packets += 1;
            assert!(packets <= CALIBRATION_PACKETS);
        }
        assert_eq!(c.status(), CalibrationStatus::Calibrated);
        let state = c.state();
        assert!(state.is_calibrated);
        assert_eq!(state.estimated_delay_samples, delay as i64);
        assert_eq!(state.confidence, 100);
        assert_eq!(state.packets_observed, SETTLE_PACKETS);
    }
}

#[test]
fn calibration_is_deterministic() {
    let pattern = make_pattern();
    let capture = delayed(&pattern, 321, 10);
    let mut a = Calibrator::new(CalibrationPolicy::standard(15));
    let mut b = Calibrator::new(CalibrationPolicy::standard(15));
    for _ in 0..15 {
        a.observe(&pattern, &capture);
        b.observe(&pattern, &capture);
        assert_eq!(a, b);
    }
}

#[test]
fn a_short_budget_freezes_the_estimate_when_it_is_spent() {
    let pattern = make_pattern();
    let capture = delayed(&pattern, 77, 5);
    let mut c = Calibrator::new(CalibrationPolicy::standard(2));
    assert_eq!(c.observe(&pattern, &capture), CalibrationStatus::Pending);
    assert_eq!(c.observe(&pattern, &capture), CalibrationStatus::Calibrated);
    assert_eq!(c.state().estimated_delay_samples, 77);
    assert_eq!(c.state().packets_observed, 2);
}

#[test]
fn calibration_fails_when_no_packet_is_heard() {
    let pattern = make_pattern();
    let silence = vec![0i16; 600];
    let mut c = Calibrator::new(CalibrationPolicy::standard(4));
    for _ in 0..3 {
        assert_eq!(c.observe(&pattern, &silence), CalibrationStatus::Pending);
    }
    assert_eq!(c.observe(&pattern, &silence), CalibrationStatus::Failed);
    assert!(!c.state().is_calibrated);
    assert_eq!(c.state().packets_observed, 4);
    assert!(c.failed);
}

#[test]
fn unconfident_and_missing_detections_are_observed_but_not_counted() {
    let mut c = Calibrator::new(CalibrationPolicy::standard(10));
    assert_eq!(c.absorb(None), CalibrationStatus::Pending);
    assert_eq!(
        c.absorb(Some(Detection { lag: 9, confidence: MIN_CONFIDENCE - 1 })),
        CalibrationStatus::Pending
    );
    assert_eq!(c.state().packets_observed, 2);
    assert_eq!(c.stats.count, 0);
    assert_eq!(
        c.absorb(Some(Detection { lag: 40, confidence: MIN_CONFIDENCE })),
        CalibrationStatus::Pending
    );
    assert_eq!(c.stats.count, 1);
    assert_eq!(c.state().estimated_delay_samples, 40);
    assert_eq!(c.state().confidence, MIN_CONFIDENCE);
}

#[test]
fn the_estimate_is_the_mean_of_the_counted_delays() {
    let mut c = Calibrator::new(CalibrationPolicy::standard(10));
    c.absorb(Some(Detection { lag: 100, confidence: 90 }));
    c.absorb(Some(Detection { lag: 103, confidence: 80 }));
    assert_eq!(c.state().estimated_delay_samples, 101);
    assert_eq!(c.state().confidence, 80);
    assert_eq!(c.status(), CalibrationStatus::Pending);
    // variance: 3 * (100^2 + 103^2 + 130^2) - 333^2 = 1638 > 1 * 9
    assert_eq!(c.absorb(Some(Detection { lag: 130, confidence: 70 })), CalibrationStatus::Pending);
    assert_eq!(c.state().estimated_delay_samples, 111);
}

#[test]
fn an_unsteady_estimate_is_frozen_only_by_the_budget() {
    let mut c = Calibrator::new(CalibrationPolicy::standard(4));
    for lag in [10usize, 50, 90] {
        assert_eq!(c.absorb(Some(Detection { lag, confidence: 100 })), CalibrationStatus::Pending);
    }
    assert_eq!(c.absorb(Some(Detection { lag: 130, confidence: 100 })), CalibrationStatus::Calibrated);
    assert_eq!(c.state().estimated_delay_samples, 70);
}

#[test]
fn a_frozen_calibration_ignores_further_packets() {
    let mut c = Calibrator::new(CalibrationPolicy::standard(15));
    for _ in 0..3 {
        c.absorb(Some(Detection { lag: 25, confidence: 100 }));
    }
    assert_eq!(c.status(), CalibrationStatus::Calibrated);
    let frozen = c;
    assert_eq!(c.absorb(Some(Detection { lag: 999, confidence: 100 })), CalibrationStatus::Calibrated);
    assert_eq!(c, frozen);
}

#[test]
fn a_delay_beyond_the_limit_is_not_counted() {
    if usize::BITS > 32 {
        let mut c = Calibrator::new(CalibrationPolicy::standard(2));
        let far = 0xffff_ffffu64 as usize + 1;
        assert_eq!(c.absorb(Some(Detection { lag: far, confidence: 100 })), CalibrationStatus::Pending);
        assert_eq!(c.stats.count, 0);
        assert_eq!(c.absorb(Some(Detection { lag: far, confidence: 100 })), CalibrationStatus::Failed);
    }
}
