use melodeus_aec::aligner::{ReadResult, StreamAligner, WriteResult};

#[test]
fn new_rejects_zero_capacity() {
    assert!(StreamAligner::<i16>::new(0, 0).is_none());
    let a = StreamAligner::<i16>::new(1, 0).unwrap();
    assert_eq!(a.capacity(), 1);
    assert_eq!(a.len(), 0);
    assert!(a.is_empty());
    assert_eq!(a.free(), 1);
    assert_eq!(a.silence(), 0);
    assert_eq!(a.overrun_samples(), 0);
    assert_eq!(a.underrun_samples(), 0);
}

#[test]
fn sized_for_multiplies_seconds_rate_and_channels() {
    let a = StreamAligner::<i16>::sized_for(5, 16_000, 2, 0).unwrap();
    assert_eq!(a.capacity(), 160_000);
    assert!(a.is_empty());
    assert!(StreamAligner::<i16>::sized_for(0, 16_000, 2, 0).is_none());
    assert!(StreamAligner::<i16>::sized_for(5, 0, 2, 0).is_none());
    assert!(StreamAligner::<i16>::sized_for(5, 16_000, 0, 0).is_none());
}

#[test]
fn round_trip_in_frames_returns_the_written_samples_in_order() {
    let mut a = StreamAligner::<i16>::new(12, 0).unwrap();
    assert_eq!(a.write(&[1, 2, 3]), WriteResult::Written);
    assert_eq!(a.write(&[]), WriteResult::Written);
    assert_eq!(a.write(&[4, 5, 6, 7, 8]), WriteResult::Written);
    assert_eq!(a.write(&[9, 10, 11, 12]), WriteResult::Written);
    assert_eq!(a.len(), 12);
    assert_eq!(a.free(), 0);
    let mut all = Vec::new();
    for _ in 0..3 {
        let mut frame = [-1i16; 4];
        assert_eq!(a.read_into(&mut frame), ReadResult::Filled);
        all.extend_from_slice(&frame);
    }
    assert_eq!(all, vec![1, 2, 3, 4, 5, 6, 7, 8, 9, 10, 11, 12]);
    assert!(a.is_empty());
    assert_eq!(a.overrun_samples(), 0);
    assert_eq!(a.underrun_samples(), 0);
}

#[test]
fn round_trip_survives_wrapping_around_the_ring() {
    let mut a = StreamAligner::<i16>::new(5, 0).unwrap();
    let mut next: i16 = 0;
    let mut expected: i16 = 0;
    for _ in 0..20 {
        let chunk = [next, next + 1, next + 2];
        next += 3;
        assert_eq!(a.write(&chunk), WriteResult::Written);
        let mut frame = [0i16; 3];
        assert_eq!(a.read_into(&mut frame), ReadResult::Filled);
        assert_eq!(frame, [expected, expected + 1, expected + 2]);
        expected += 3;
    }
}

#[test]
fn reading_before_any_write_yields_silence_and_counts_the_shortfall() {
    let mut a = StreamAligner::<i16>::new(8, 0).unwrap();
    let mut frame = [7i16; 4];
    assert_eq!(a.read_into(&mut frame), ReadResult::Underrun { shortfall: 4 });
    assert_eq!(frame, [0, 0, 0, 0]);
    assert_eq!(a.underrun_samples(), 4);
    assert_eq!(a.read_into(&mut frame), ReadResult::Underrun { shortfall: 4 });
    assert_eq!(a.underrun_samples(), 8);
    assert!(a.is_empty());
}

#[test]
fn a_short_queue_is_padded_with_silence() {
    let mut a = StreamAligner::<i16>::new(8, 0).unwrap();
    a.write(&[5, 6]);
    let mut frame = [9i16; 5];
    assert_eq!(a.read_into(&mut frame), ReadResult::Underrun { shortfall: 3 });
    assert_eq!(frame, [5, 6, 0, 0, 0]);
    assert_eq!(a.underrun_samples(), 3);
    assert_eq!(a.len(), 0);
}

#[test]
fn reading_nothing_changes_nothing() {
    let mut a = StreamAligner::<i16>::new(4, 0).unwrap();
    a.write(&[1, 2]);
    let mut nothing: [i16; 0] = [];
    assert_eq!(a.read_into(&mut nothing), ReadResult::Filled);
    assert_eq!(a.len(), 2);
    assert_eq!(a.underrun_samples(), 0);
}

#[test]
fn overrun_drops_exactly_the_oldest_excess() {
    let mut a = StreamAligner::<i16>::new(4, 0).unwrap();
    assert_eq!(a.write(&[1, 2, 3]), WriteResult::Written);
    assert_eq!(a.write(&[4, 5, 6]), WriteResult::Overrun { dropped: 2 });
    assert_eq!(a.len(), 4);
    assert_eq!(a.overrun_samples(), 2);
    let mut frame = [0i16; 4];
    assert_eq!(a.read_into(&mut frame), ReadResult::Filled);
    assert_eq!(frame, [3, 4, 5, 6]);
}

#[test]
fn a_write_longer_than_the_queue_keeps_its_newest_samples() {
    let mut a = StreamAligner::<i16>::new(3, 0).unwrap();
    a.write(&[100]);
    assert_eq!(a.write(&[1, 2, 3, 4, 5, 6, 7]), WriteResult::Overrun { dropped: 5 });
    assert_eq!(a.len(), 3);
    assert_eq!(a.capacity(), 3);
    assert_eq!(a.overrun_samples(), 5);
    let mut frame = [0i16; 3];
    a.read_into(&mut frame);
    assert_eq!(frame, [5, 6, 7]);
}

#[test]
fn buffered_size_never_exceeds_capacity() {
    let mut a = StreamAligner::<i16>::new(7, 0).unwrap();
    let mut total_dropped = 0;
    for k in 0..10i16 {
        if let WriteResult::Overrun { dropped } = a.write(&[k, k, k]) {
            total_dropped += dropped;
        }
        assert!(a.len() <= a.capacity());
    }
    assert_eq!(a.len(), 7);
    assert_eq!(total_dropped, 30 - 7);
    assert_eq!(a.overrun_samples(), 23);
}

#[test]
fn write_silence_appends_silence() {
    let mut a = StreamAligner::<i16>::new(4, -1).unwrap();
    a.write(&[8, 9]);
    assert_eq!(a.write_silence(1), WriteResult::Written);
    assert_eq!(a.write_silence(3), WriteResult::Overrun { dropped: 2 });
    let mut frame = [0i16; 4];
    a.read_into(&mut frame);
    assert_eq!(frame, [-1, -1, -1, -1]);
    assert_eq!(a.overrun_samples(), 2);
}

#[test]
fn clear_empties_the_queue_and_keeps_the_counters() {
    let mut a = StreamAligner::<i16>::new(2, 0).unwrap();
    a.write(&[1, 2, 3]);
    let mut frame = [0i16; 3];
    a.read_into(&mut frame);
    a.write(&[4]);
    a.clear();
    assert!(a.is_empty());
    assert_eq!(a.capacity(), 2);
    assert_eq!(a.overrun_samples(), 1);
    assert_eq!(a.underrun_samples(), 1);
    a.write(&[5, 6]);
    let mut two = [0i16; 2];
    assert_eq!(a.read_into(&mut two), ReadResult::Filled);
    assert_eq!(two, [5, 6]);
}

#[test]
fn the_queue_carries_any_copyable_sample() {
    let mut a = StreamAligner::<f32>::new(3, 0.0).unwrap();
    assert_eq!(a.write(&[0.5, -0.25]), WriteResult::Written);
    let mut frame = [1.0f32; 3];
    assert_eq!(a.read_into(&mut frame), ReadResult::Underrun { shortfall: 1 });
    assert_eq!(frame, [0.5, -0.25, 0.0]);
}
