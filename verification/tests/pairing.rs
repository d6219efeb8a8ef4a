use melodeus_aec::calibrate::{CalibrationPolicy, CalibrationState};
use melodeus_aec::detect::Detection;
use melodeus_aec::pairing::{advance, Pairing, PairingEvent, PairingState};
use melodeus_aec::pattern::make_pattern;

const STATES: [PairingState; 4] = [
    PairingState::Uncalibrated,
    PairingState::Calibrating,
    PairingState::Active,
    PairingState::Degraded,
];

fn calibrated(delay: usize, capacity: usize, limit: u64) -> Pairing {
    let mut p = Pairing::new(CalibrationPolicy::standard(15), capacity, limit).unwrap();
    p.begin(false);
    for _ in 0..3 {
        p.absorb(Some(Detection { lag: delay, confidence: 100 }));
    }
    p
}

#[test]
fn the_state_machine_moves_as_documented() {
    for state in STATES {
        assert_eq!(advance(state, PairingEvent::CalibrationStarted), PairingState::Calibrating);
    }
    assert_eq!(
        advance(PairingState::Calibrating, PairingEvent::CalibrationSucceeded),
        PairingState::Active
    );
    assert_eq!(
        advance(PairingState::Calibrating, PairingEvent::CalibrationFailed),
        PairingState::Uncalibrated
    );
    assert_eq!(
        advance(PairingState::Active, PairingEvent::GlitchLimitExceeded),
        PairingState::Degraded
    );
}

#[test]
fn other_events_leave_the_state_alone() {
    for state in [PairingState::Uncalibrated, PairingState::Active, PairingState::Degraded] {
        assert_eq!(advance(state, PairingEvent::CalibrationSucceeded), state);
        assert_eq!(advance(state, PairingEvent::CalibrationFailed), state);
    }
    for state in [PairingState::Uncalibrated, PairingState::Calibrating, PairingState::Degraded] {
        assert_eq!(advance(state, PairingEvent::GlitchLimitExceeded), state);
    }
}

#[test]
fn a_new_pairing_is_uncalibrated() {
    assert!(Pairing::new(CalibrationPolicy::standard(15), 0, 10).is_none());
    let p = Pairing::new(CalibrationPolicy::standard(15), 100, 10).unwrap();
    assert_eq!(p.state(), PairingState::Uncalibrated);
    assert!(!p.is_calibrated());
    assert_eq!(p.glitches(), 0);
    assert_eq!(
        p.calibration(),
        CalibrationState {
            estimated_delay_samples: 0,
            confidence: 0,
            packets_observed: 0,
            is_calibrated: false,
        }
    );
}

#[test]
fn an_uncalibrated_pairing_hands_out_silence_and_records_nothing() {
    let mut p = Pairing::new(CalibrationPolicy::standard(15), 100, 10).unwrap();
    p.feed(&[1, 2, 3, 4]);
    assert_eq!(p.tick(4, 4), vec![0, 0, 0, 0]);
    p.jolt(50);
    assert_eq!(p.glitches(), 0);
    assert_eq!(p.state(), PairingState::Uncalibrated);
    assert_eq!(p.absorb(Some(Detection { lag: 5, confidence: 100 })), PairingState::Uncalibrated);
    assert_eq!(p.calibration().packets_observed, 0);
}

#[test]
fn calibration_makes_the_pairing_active_and_delays_the_reference() {
    let mut p = Pairing::new(CalibrationPolicy::standard(15), 100, 10).unwrap();
    p.begin(false);
    assert_eq!(p.state(), PairingState::Calibrating);
    assert_eq!(p.absorb(Some(Detection { lag: 3, confidence: 100 })), PairingState::Calibrating);
    assert_eq!(p.absorb(Some(Detection { lag: 3, confidence: 100 })), PairingState::Calibrating);
    assert_eq!(p.absorb(Some(Detection { lag: 3, confidence: 100 })), PairingState::Active);
    assert!(p.is_calibrated());
    assert_eq!(p.calibration().estimated_delay_samples, 3);
    p.feed(&[10, 20, 30, 40, 50]);
    assert_eq!(p.tick(4, 0), vec![0, 0, 0, 10]);
    assert_eq!(p.tick(4, 0), vec![20, 30, 40, 50]);
    assert_eq!(p.glitches(), 0);
    assert_eq!(p.state(), PairingState::Active);
}

#[test]
fn observing_a_capture_calibrates_like_absorbing_its_detection() {
    let pattern = make_pattern();
    let mut capture = vec![0i16; 9];
    capture.extend_from_slice(&pattern);
    let mut p = Pairing::new(CalibrationPolicy::standard(15), 100, 10).unwrap();
    p.begin(false);
    p.observe(&pattern, &capture);
    p.observe(&pattern, &capture);
    assert_eq!(p.observe(&pattern, &capture), PairingState::Active);
    assert_eq!(p.calibration().estimated_delay_samples, 9);
    assert_eq!(p.calibration().confidence, 100);
}

#[test]
fn failed_calibration_leaves_the_pairing_uncalibrated() {
    let mut p = Pairing::new(CalibrationPolicy::standard(2), 100, 10).unwrap();
    p.begin(false);
    assert_eq!(p.absorb(None), PairingState::Calibrating);
    assert_eq!(p.absorb(None), PairingState::Uncalibrated);
    p.begin(false);
    assert_eq!(p.state(), PairingState::Calibrating);
    assert_eq!(p.calibration().packets_observed, 0);
}

#[test]
fn a_pairing_without_budget_never_calibrates() {
    let mut p = Pairing::new(CalibrationPolicy::standard(0), 100, 10).unwrap();
    p.begin(false);
    assert_eq!(p.state(), PairingState::Uncalibrated);
    p.begin(true);
    assert_eq!(p.state(), PairingState::Uncalibrated);
}

#[test]
fn begin_restarts_a_calibrated_pairing_only_on_replay() {
    let mut p = calibrated(2, 100, 10);
    p.feed(&[1, 2, 3]);
    p.begin(false);
    assert_eq!(p.state(), PairingState::Active);
    assert_eq!(p.calibration().estimated_delay_samples, 2);
    assert_eq!(p.tick(3, 0), vec![0, 0, 1]);
    p.begin(true);
    assert_eq!(p.state(), PairingState::Calibrating);
    assert_eq!(p.calibration().packets_observed, 0);
    assert_eq!(p.glitches(), 0);
    assert_eq!(p.tick(3, 0), vec![0, 0, 0]);
    p.begin(true);
    assert_eq!(p.state(), PairingState::Calibrating);
}

#[test]
fn underruns_are_counted_and_degrade_past_the_limit() {
    let mut p = calibrated(0, 100, 5);
    assert_eq!(p.tick(4, 0), vec![0, 0, 0, 0]);
    assert_eq!(p.glitches(), 4);
    assert_eq!(p.state(), PairingState::Active);
    p.feed(&[7, 8, 9]);
    assert_eq!(p.tick(4, 0), vec![7, 8, 9, 0]);
    assert_eq!(p.glitches(), 5);
    assert_eq!(p.state(), PairingState::Active);
    p.feed(&[1, 2, 3, 4]);
    assert_eq!(p.tick(4, 1), vec![1, 2, 3, 4]);
    assert_eq!(p.glitches(), 6);
    assert_eq!(p.state(), PairingState::Degraded);
    p.feed(&[5, 6, 7, 8]);
    assert_eq!(p.tick(4, 0), vec![5, 6, 7, 8]);
    assert_eq!(p.state(), PairingState::Degraded);
    assert!(p.is_calibrated());
}

#[test]
fn overruns_are_counted() {
    let mut p = calibrated(0, 4, 2);
    p.feed(&[1, 2, 3]);
    assert_eq!(p.glitches(), 0);
    p.feed(&[4, 5, 6]);
    assert_eq!(p.glitches(), 2);
    assert_eq!(p.state(), PairingState::Active);
    assert_eq!(p.tick(4, 0), vec![3, 4, 5, 6]);
    p.jolt(1);
    assert_eq!(p.glitches(), 3);
    assert_eq!(p.state(), PairingState::Degraded);
}

#[test]
fn a_delay_longer_than_the_reference_counts_as_an_overrun() {
    let p = calibrated(10, 4, 100);
    assert_eq!(p.state(), PairingState::Active);
    assert_eq!(p.glitches(), 6);
    let p = calibrated(10, 4, 5);
    assert_eq!(p.state(), PairingState::Degraded);
    assert_eq!(p.glitches(), 6);
}

#[test]
fn recalibration_forgives_the_glitches() {
    let mut p = calibrated(0, 100, 1);
    p.tick(4, 0);
    assert_eq!(p.state(), PairingState::Degraded);
    p.begin(true);
    for _ in 0..3 {
        p.absorb(Some(Detection { lag: 1, confidence: 100 }));
    }
    assert_eq!(p.state(), PairingState::Active);
    assert_eq!(p.glitches(), 0);
}
