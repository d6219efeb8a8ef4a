//! The calibration signal: a short burst whose correlation with itself is
//! sharp, so that its arrival in a capture can be told to the sample.

use vstd::prelude::*;

verus! {

/// The number of chips in the burst.
pub const CHIPS: usize = 13;

/// The number of samples a chip lasts.
pub const CHIP_LEN: usize = 4;

/// The number of samples in the burst.
pub const PATTERN_LEN: usize = 52;

/// The magnitude of every sample of the burst.
pub const AMPLITUDE: i16 = 8192;

/// The sign of chip `k` of the burst, a Barker sequence: whether it is positive.
pub open spec fn chip_positive(k: int) -> bool {
    k != 5 && k != 6 && k != 9 && k != 11
}

/// Sample `i` of the burst.
pub open spec fn pattern_sample(i: int) -> i16 {
    if chip_positive(i / CHIP_LEN as int) {
        AMPLITUDE
    } else {
        (-AMPLITUDE) as i16
    }
}

/// The burst.
pub open spec fn calibration_pattern() -> Seq<i16> {
    Seq::new(PATTERN_LEN as nat, |i: int| pattern_sample(i))
}

/// The burst is not silent.
pub proof fn lemma_pattern_audible()
    ensures
        crate::signal::audible(calibration_pattern()),
        calibration_pattern().len() == PATTERN_LEN,
{
    assert(calibration_pattern()[0] != 0);
}

/// Builds the burst.
pub fn make_pattern() -> (pattern: Vec<i16>)
    ensures
        pattern@ == calibration_pattern(),
{
    let mut pattern: Vec<i16> = Vec::new();
    let mut i: usize = 0;
    while i < PATTERN_LEN
        invariant
            i <= PATTERN_LEN,
            pattern@.len() == i,
            forall|j: int| 0 <= j < i ==> pattern@[j] == pattern_sample(j),
        decreases PATTERN_LEN - i,
    {
        let k = i / CHIP_LEN;
        let positive = k != 5 && k != 6 && k != 9 && k != 11;
        pattern.push(
            if positive {
                AMPLITUDE
            } else {
                -AMPLITUDE
            },
        );
        i += 1;
    }
    assert(pattern@ =~= calibration_pattern());
    pattern
}

} // verus!
