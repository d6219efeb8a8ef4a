use melodeus_aec::driver::{
    copy_frame, mix, settle_frame, silent_frame, EchoCanceller, EchoDriver,
};

/// Subtracts the far-end frame from the near-end frame.
struct Subtractor;

impl EchoCanceller for Subtractor {
    fn cancel(&mut self, near: &[i16], far: &[i16]) -> Vec<i16> {
        near.iter().zip(far.iter()).map(|(n, f)| n.saturating_sub(*f)).collect()
    }
}

/// Returns frames of a fixed, wrong length.
struct Broken {
    len: usize,
}

impl EchoCanceller for Broken {
    fn cancel(&mut self, _near: &[i16], _far: &[i16]) -> Vec<i16> {
        vec![77; self.len]
    }
}

/// Remembers the order in which frames arrive.
struct Recorder {
    seen: Vec<i16>,
}

impl EchoCanceller for Recorder {
    fn cancel(&mut self, near: &[i16], _far: &[i16]) -> Vec<i16> {
        self.seen.push(near[0]);
        self.seen.clone()
    }
}

#[test]
fn copy_and_silence() {
    assert_eq!(copy_frame(&[1, -2, 3]), vec![1, -2, 3]);
    assert_eq!(copy_frame(&[]), Vec::<i16>::new());
    assert_eq!(silent_frame(3), vec![0, 0, 0]);
    assert_eq!(silent_frame(0), Vec::<i16>::new());
}

#[test]
fn settle_keeps_a_frame_of_the_right_length() {
    assert_eq!(settle_frame(&[1, 2, 3], vec![7, 8, 9]), vec![7, 8, 9]);
    assert_eq!(settle_frame(&[], vec![]), Vec::<i16>::new());
}

#[test]
fn settle_falls_back_to_the_near_end_frame() {
    assert_eq!(settle_frame(&[1, 2, 3], vec![7, 8]), vec![1, 2, 3]);
    assert_eq!(settle_frame(&[1, 2, 3], vec![7, 8, 9, 10]), vec![1, 2, 3]);
    assert_eq!(settle_frame(&[1, 2, 3], vec![]), vec![1, 2, 3]);
}

#[test]
fn mix_adds_the_frames_sample_by_sample() {
    let frames = vec![vec![1, 2, 3], vec![10, 20, 30], vec![-100, 0, 100]];
    assert_eq!(mix(&frames, 3), vec![-89, 22, 133]);
    assert_eq!(mix(&vec![vec![4, 5]], 2), vec![4, 5]);
}

#[test]
fn mix_of_nothing_is_silence() {
    assert_eq!(mix(&Vec::new(), 4), vec![0, 0, 0, 0]);
}

#[test]
fn mix_holds_sums_to_the_sample_range() {
    let frames = vec![vec![i16::MAX, i16::MIN, 30_000], vec![1, -1, -30_000], vec![5, -5, 7]];
    assert_eq!(mix(&frames, 3), vec![i16::MAX, i16::MIN, 7]);
    let frames = vec![vec![i16::MAX], vec![i16::MAX], vec![i16::MIN], vec![i16::MIN]];
    assert_eq!(mix(&frames, 1), vec![-2]);
}

#[test]
fn process_frame_hands_on_what_the_canceller_returns() {
    let mut driver = EchoDriver::new(Subtractor, 4);
    assert_eq!(driver.frame_size(), 4);
    assert_eq!(driver.frames_processed(), 0);
    assert_eq!(driver.process_frame(&[10, 20, 30, 40], &[1, 2, 3, 4]), vec![9, 18, 27, 36]);
    assert_eq!(driver.frames_processed(), 1);
}

#[test]
fn process_frame_always_returns_one_frame() {
    for len in [0usize, 1, 159, 161, 1000] {
        let mut driver = EchoDriver::new(Broken { len }, 160);
        let near: Vec<i16> = (0..160).collect();
        let far = vec![i16::MAX; 160];
        let out = driver.process_frame(&near, &far);
        assert_eq!(out.len(), 160);
        assert_eq!(out, near);
    }
    let mut driver = EchoDriver::new(Broken { len: 160 }, 160);
    let silence = vec![0i16; 160];
    assert_eq!(driver.process_frame(&silence, &silence), vec![77; 160]);
    let loud = vec![i16::MIN; 160];
    assert_eq!(driver.process_frame(&loud, &loud).len(), 160);
    assert_eq!(driver.frames_processed(), 2);
}

#[test]
fn frames_reach_the_canceller_in_order() {
    let mut driver = EchoDriver::new(Recorder { seen: Vec::new() }, 3);
    assert_eq!(driver.process_frame(&[1, 0, 0], &[0, 0, 0]), vec![1, 0, 0]);
    assert_eq!(driver.process_frame(&[2, 0, 0], &[0, 0, 0]), vec![2, 0, 0]);
    assert_eq!(driver.process_frame(&[3, 0, 0], &[0, 0, 0]), vec![1, 2, 3]);
    assert_eq!(driver.frames_processed(), 3);
}

#[test]
fn a_frame_that_ends_early_is_silent_from_there() {
    let frames = vec![vec![1, 2, 3], vec![10], vec![]];
    assert_eq!(mix(&frames, 4), vec![11, 2, 3, 0]);
    assert_eq!(mix(&frames, 2), vec![11, 2]);
}
