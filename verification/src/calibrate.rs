//! Delay calibration for one pairing of an output with an input: every
//! observed calibration packet refines a running estimate of the round-trip
//! delay until the estimate is stable or the packet budget is spent.

use vstd::prelude::*;
use crate::detect::{
    delayed_copy, detect, detection, lemma_detects_delay, searchable, Detection, FULL_CONFIDENCE,
};
use crate::config::CALIBRATION_PACKETS;
use crate::pattern::{calibration_pattern, lemma_pattern_audible};
use crate::signal::audible;

verus! {

/// The confidence a detection needs to refine the estimate, in percent.
pub const MIN_CONFIDENCE: u32 = 50;

/// The number of confident detections after which a stable estimate ends
/// calibration before the budget is spent.
pub const SETTLE_PACKETS: u32 = 3;

/// The variance of the detected delays, in squared samples, up to which the
/// estimate counts as stable.
pub const MAX_DELAY_VARIANCE: u32 = 1;

/// The largest delay a detection may report and still be counted.
pub const DELAY_LIMIT: u64 = 0xffff_ffff;

/// The rules one calibration runs by.
#[derive(Clone, Copy, Debug, PartialEq, Eq, Structural)]
pub struct CalibrationPolicy {
    /// The number of packets after which calibration ends in any case.
    pub packets: u32,
    /// The confidence a detection needs to be counted, in percent.
    pub min_confidence: u32,
    /// The number of counted detections a stable estimate needs.
    pub settle_packets: u32,
    /// The variance up to which the estimate counts as stable.
    pub max_variance: u32,
}

/// The count, the sum and the sum of squares of the delays counted so far.
#[derive(Clone, Copy, Debug, PartialEq, Eq, Structural)]
pub struct DelayStats {
    /// The number of delays counted.
    pub count: u32,
    /// The sum of the delays counted.
    pub sum: u64,
    /// The sum of the squares of the delays counted.
    pub sum_squares: u128,
}

/// What is known of the delay of one pairing.
#[derive(Clone, Copy, Debug, PartialEq, Eq, Structural)]
pub struct CalibrationState {
    /// The running estimate: the mean of the delays counted so far.
    pub estimated_delay_samples: i64,
    /// The confidence of the detection that last refined the estimate.
    pub confidence: u32,
    /// The number of packets observed, counted or not.
    pub packets_observed: u32,
    /// Whether the estimate is frozen.
    pub is_calibrated: bool,
}

/// Where a calibration stands.
#[derive(Clone, Copy, Debug, PartialEq, Eq, Structural)]
pub enum CalibrationStatus {
    /// More packets are needed.
    Pending,
    /// The estimate is frozen.
    Calibrated,
    /// The budget was spent without one confident detection.
    Failed,
}

/// The calibration of one pairing.
#[derive(Clone, Copy, Debug, PartialEq, Eq, Structural)]
pub struct Calibrator {
    /// The rules the calibration runs by.
    pub policy: CalibrationPolicy,
    /// What is known of the delay.
    pub state: CalibrationState,
    /// The delays counted so far.
    pub stats: DelayStats,
    /// Whether the budget was spent without one counted delay.
    pub failed: bool,
}

impl CalibrationPolicy {
    /// The engine's own rules for a budget of `packets` packets.
    pub open spec fn spec_standard(packets: u32) -> CalibrationPolicy {
        CalibrationPolicy {
            packets,
            min_confidence: MIN_CONFIDENCE,
            settle_packets: SETTLE_PACKETS,
            max_variance: MAX_DELAY_VARIANCE,
        }
    }

    /// The engine's own rules for a budget of `packets` packets.
    pub fn standard(packets: u32) -> (policy: CalibrationPolicy)
        ensures
            policy == CalibrationPolicy::spec_standard(packets),
    {
        CalibrationPolicy {
            packets,
            min_confidence: MIN_CONFIDENCE,
            settle_packets: SETTLE_PACKETS,
            max_variance: MAX_DELAY_VARIANCE,
        }
    }

    /// Whether a detection is counted: there is one, it is confident enough
    /// and its delay is within the limit.
    pub open spec fn counts(self, found: Option<Detection>) -> bool {
        found matches Some(d) && d.confidence >= self.min_confidence && d.lag <= DELAY_LIMIT
    }
}

impl DelayStats {
    /// The sums are within what `count` delays can add up to.
    pub open spec fn wf(self) -> bool {
        &&& self.sum <= self.count * DELAY_LIMIT
        &&& self.sum_squares <= self.count * (DELAY_LIMIT * DELAY_LIMIT)
    }

    /// The statistics of no delays.
    pub open spec fn empty() -> DelayStats {
        DelayStats { count: 0, sum: 0, sum_squares: 0 }
    }

    /// The statistics after one more delay was counted.
    pub open spec fn with(self, delay: int) -> DelayStats {
        DelayStats {
            count: (self.count + 1) as u32,
            sum: (self.sum + delay) as u64,
            sum_squares: (self.sum_squares + delay * delay) as u128,
        }
    }

    /// The mean of the delays, rounded down; zero where there are none.
    pub open spec fn mean(self) -> int {
        if self.count == 0 {
            0
        } else {
            self.sum as int / self.count as int
        }
    }

    /// Whether there are delays and their variance is at most `max_variance`:
    /// `count * sum_squares - sum^2 <= max_variance * count^2`.
    pub open spec fn steady(self, max_variance: u32) -> bool {
        &&& self.count > 0
        &&& self.count * self.sum_squares - self.sum * self.sum <= max_variance * (self.count
            * self.count)
    }

    /// Counts one more delay.
    pub fn push(&mut self, delay: u32)
        requires
            old(self).wf(),
            old(self).count < u32::MAX,
        ensures
            *final(self) == old(self).with(delay as int),
            final(self).wf(),
            final(self).count == old(self).count + 1,
            final(self).sum == old(self).sum + delay,
            final(self).sum_squares == old(self).sum_squares + delay * delay,
    {
        let ghost c = self.count as int;
        let ghost m = DELAY_LIMIT as int;
        let d: u64 = delay as u64;
        assert(c * m + m == (c + 1) * m && c * (m * m) + m * m == (c + 1) * (m * m) && 0 <= d * d
            <= m * m && (c + 1) * m <= m * m && (c + 1) * (m * m) <= m * (m * m))
            by (nonlinear_arith)
            requires
                0 <= c < m,
                0 <= d <= m,
        ;
        let square: u64 = d * d;
        self.count = self.count + 1;
        self.sum = self.sum + d;
        self.sum_squares = self.sum_squares + square as u128;
    }

    /// The mean of the delays counted, rounded down.
    pub fn average(&self) -> (mean: u64)
        ensures
            mean == self.mean(),
    {
        if self.count == 0 {
            0
        } else {
            self.sum / (self.count as u64)
        }
    }

    /// Whether delays were counted and their variance is at most `max_variance`.
    pub fn is_steady(&self, max_variance: u32) -> (yes: bool)
        requires
            self.wf(),
        ensures
            yes == self.steady(max_variance),
    {
        if self.count == 0 {
            return false;
        }
        let ghost c = self.count as int;
        let ghost m = DELAY_LIMIT as int;
        let ghost s = self.sum as int;
        let ghost q = self.sum_squares as int;
        let ghost v = max_variance as int;
        assert(c * q <= m * (m * (m * m)) && s * s <= (m * m) * (m * m) && v * (c * c) <= m * (m
            * m) && 0 <= c * c <= m * m && 0 <= v * (c * c) && 0 <= c * q && 0 <= s * s)
            by (nonlinear_arith)
            requires
                0 < c <= m,
                0 <= s <= c * m,
                0 <= q <= c * (m * m),
                0 <= v <= m,
        ;
        let count: u128 = self.count as u128;
        let scaled: u128 = count * self.sum_squares;
        let square: u128 = (self.sum as u128) * (self.sum as u128);
        let allowed: u128 = (max_variance as u128) * (count * count);
        if scaled <= square {
            true
        } else {
            scaled - square <= allowed
        }
    }
}

impl Calibrator {
    /// Whether calibration has ended, one way or the other.
    pub open spec fn settled(self) -> bool {
        self.state.is_calibrated || self.failed
    }

    /// The representation invariant: consistent sums, no more counted
    /// delays than observed packets, and budget left while not settled.
    pub open spec fn wf(self) -> bool {
        &&& self.stats.wf()
        &&& self.stats.count <= self.state.packets_observed
        &&& 0 <= self.state.estimated_delay_samples <= DELAY_LIMIT
        &&& !self.settled() ==> self.state.packets_observed < self.policy.packets
    }

    /// A calibration that has observed nothing. With no budget at all it has
    /// failed from the start.
    pub open spec fn fresh(policy: CalibrationPolicy) -> Calibrator {
        Calibrator {
            policy,
            state: CalibrationState {
                estimated_delay_samples: 0,
                confidence: 0,
                packets_observed: 0,
                is_calibrated: false,
            },
            stats: DelayStats::empty(),
            failed: policy.packets == 0,
        }
    }

    /// Where the calibration stands.
    pub open spec fn standing(self) -> CalibrationStatus {
        if self.state.is_calibrated {
            CalibrationStatus::Calibrated
        } else if self.failed {
            CalibrationStatus::Failed
        } else {
            CalibrationStatus::Pending
        }
    }

    /// The calibration after one more packet was observed and the detector
    /// found `found` in its capture.
    ///
    /// A settled calibration stays as it is. Otherwise the packet is
    /// observed; a detection that counts refines the mean. The estimate is
    /// frozen when enough delays were counted and they are steady, or when
    /// the budget is spent and at least one delay was counted. A spent budget
    /// without a counted delay is a failure.
    pub open spec fn observed(self, found: Option<Detection>) -> Calibrator {
        if self.settled() {
            self
        } else {
            let packets = self.state.packets_observed + 1;
            let counts = self.policy.counts(found);
            let stats = if counts {
                self.stats.with(found->0.lag as int)
            } else {
                self.stats
            };
            let steady = stats.count >= self.policy.settle_packets && stats.steady(
                self.policy.max_variance,
            );
            let spent = packets >= self.policy.packets;
            Calibrator {
                policy: self.policy,
                state: CalibrationState {
                    estimated_delay_samples: stats.mean() as i64,
                    confidence: if counts {
                        found->0.confidence
                    } else {
                        self.state.confidence
                    },
                    packets_observed: packets as u32,
                    is_calibrated: steady || (spent && stats.count > 0),
                },
                stats,
                failed: spent && stats.count == 0,
            }
        }
    }

    /// Starts a calibration under `policy`.
    pub fn new(policy: CalibrationPolicy) -> (made: Calibrator)
        ensures
            made == Calibrator::fresh(policy),
            made.wf(),
    {
        Calibrator {
            policy,
            state: CalibrationState {
                estimated_delay_samples: 0,
                confidence: 0,
                packets_observed: 0,
                is_calibrated: false,
            },
            stats: DelayStats { count: 0, sum: 0, sum_squares: 0 },
            failed: policy.packets == 0,
        }
    }

    /// What is known of the delay.
    pub fn state(&self) -> (state: CalibrationState)
        ensures
            state == self.state,
    {
        self.state
    }

    /// Where the calibration stands.
    pub fn status(&self) -> (status: CalibrationStatus)
        ensures
            status == self.standing(),
    {
        if self.state.is_calibrated {
            CalibrationStatus::Calibrated
        } else if self.failed {
            CalibrationStatus::Failed
        } else {
            CalibrationStatus::Pending
        }
    }

    /// Takes in what the detector found in the capture of one more packet.
    pub fn absorb(&mut self, found: Option<Detection>) -> (status: CalibrationStatus)
        requires
            old(self).wf(),
        ensures
            *final(self) == old(self).observed(found),
            final(self).wf(),
            status == final(self).standing(),
    {
        if self.state.is_calibrated || self.failed {
            return self.status();
        }
        let packets: u32 = self.state.packets_observed + 1;
        match found {
            Some(d) => {
                if d.confidence >= self.policy.min_confidence && d.lag as u64 <= DELAY_LIMIT {
                    self.stats.push(d.lag as u32);
                    self.state.confidence = d.confidence;
                }
            },
            None => {},
        }
        let mean = self.stats.average();
        proof {
            let c = self.stats.count as int;
            let s = self.stats.sum as int;
            let m = DELAY_LIMIT as int;
            if c > 0 {
                assert(s / c <= m) by (nonlinear_arith)
                    requires
                        c > 0,
                        0 <= s <= c * m,
                ;
            }
        }
        let steady = self.stats.count >= self.policy.settle_packets && self.stats.is_steady(
            self.policy.max_variance,
        );
        let spent = packets >= self.policy.packets;
        self.state.estimated_delay_samples = mean as i64;
        self.state.packets_observed = packets;
        self.state.is_calibrated = steady || (spent && self.stats.count > 0);
        self.failed = spent && self.stats.count == 0;
        self.status()
    }

    /// Observes one more packet: searches `capture` for `pattern` and takes
    /// in what the detector finds.
    pub fn observe(&mut self, pattern: &[i16], capture: &[i16]) -> (status: CalibrationStatus)
        requires
            old(self).wf(),
        ensures
            *final(self) == old(self).observed(detection(pattern@, capture@)),
            final(self).wf(),
            status == final(self).standing(),
    {
        let found = detect(pattern, capture);
        self.absorb(found)
    }
}

/// The calibration after every capture of `captures` was observed in order.
pub open spec fn after_captures(start: Calibrator, pattern: Seq<i16>, captures: Seq<Seq<i16>>) -> Calibrator
    decreases captures.len(),
{
    if captures.len() == 0 {
        start
    } else {
        after_captures(start, pattern, captures.drop_last()).observed(
            detection(pattern, captures.last()),
        )
    }
}

/// Whether every capture of `captures` is `pattern` delayed by `delay`
/// samples and nothing else.
pub open spec fn all_delayed(pattern: Seq<i16>, captures: Seq<Seq<i16>>, delay: int) -> bool {
    forall|k: int|
        0 <= k < captures.len() ==> {
            &&& searchable(pattern, #[trigger] captures[k])
            &&& captures[k].len() <= usize::MAX
            &&& delayed_copy(pattern, captures[k], delay)
        }
}

/// While calibration runs on noise-free captures of one delay, every packet
/// is counted and every counted delay is that delay.
proof fn lemma_clean_progress(
    policy: CalibrationPolicy,
    pattern: Seq<i16>,
    captures: Seq<Seq<i16>>,
    delay: int,
)
    requires
        policy.packets > 0,
        policy.min_confidence <= FULL_CONFIDENCE,
        audible(pattern),
        0 <= delay <= DELAY_LIMIT,
        all_delayed(pattern, captures, delay),
    ensures
        ({
            let now = after_captures(Calibrator::fresh(policy), pattern, captures);
            &&& now.policy == policy
            &&& !now.failed
            &&& now.state.packets_observed <= policy.packets
            &&& now.state.packets_observed <= captures.len()
            &&& now.settled() ==> now.state.is_calibrated && now.state.estimated_delay_samples
                == delay
            &&& !now.settled() ==> {
                &&& now.state.packets_observed == captures.len()
                &&& captures.len() < policy.packets
                &&& now.stats.count == captures.len()
                &&& now.stats.sum == captures.len() * delay
                &&& now.stats.sum_squares == captures.len() * (delay * delay)
            }
        }),
    decreases captures.len(),
{
    if captures.len() > 0 {
        let earlier = captures.drop_last();
        assert forall|k: int| 0 <= k < earlier.len() implies {
            &&& searchable(pattern, #[trigger] earlier[k])
            &&& earlier[k].len() <= usize::MAX
            &&& delayed_copy(pattern, earlier[k], delay)
        } by {
            assert(earlier[k] == captures[k]);
        }
        lemma_clean_progress(policy, pattern, earlier, delay);
        let before = after_captures(Calibrator::fresh(policy), pattern, earlier);
        let capture = captures.last();
        assert(capture == captures[captures.len() - 1]);
        lemma_detects_delay(pattern, capture, delay);
        let found = detection(pattern, capture);
        if !before.settled() {
            let k = earlier.len() as int;
            let m = DELAY_LIMIT as int;
            let p = policy.packets as int;
            assert(policy.counts(found));
            assert(k * delay + delay == (k + 1) * delay && k * (delay * delay) + delay * delay
                == (k + 1) * (delay * delay) && 0 <= (k + 1) * delay <= m * m && 0 <= (k + 1) * (
            delay * delay) <= m * (m * m) && ((k + 1) * delay) / (k + 1) == delay && (k + 1) * ((k
                + 1) * (delay * delay)) - ((k + 1) * delay) * ((k + 1) * delay) == 0 && 0
                <= policy.max_variance * ((k + 1) * (k + 1))) by (nonlinear_arith)
                requires
                    0 <= k < p <= m,
                    0 <= delay <= m,
                    m == 0xffff_ffff,
                    policy.max_variance >= 0,
            ;
            let stats = before.stats.with(delay);
            assert(stats.count == k + 1);
            assert(stats.sum == (k + 1) * delay);
            assert(stats.sum_squares == (k + 1) * (delay * delay));
            assert(stats.mean() == delay);
            assert(stats.steady(policy.max_variance));
        }
    }
}

/// Convergence: when every calibration packet comes back as the pattern
/// delayed by `delay` samples, without noise, then after as many packets as
/// the budget allows the estimate is frozen at exactly `delay`. The estimate
/// depends on nothing but the pattern and the captures.
pub proof fn lemma_calibration_converges(
    policy: CalibrationPolicy,
    pattern: Seq<i16>,
    captures: Seq<Seq<i16>>,
    delay: int,
)
    requires
        policy.packets > 0,
        policy.min_confidence <= FULL_CONFIDENCE,
        audible(pattern),
        0 <= delay <= DELAY_LIMIT,
        all_delayed(pattern, captures, delay),
        captures.len() >= policy.packets,
    ensures
        ({
            let end = after_captures(Calibrator::fresh(policy), pattern, captures);
            &&& end.state.is_calibrated
            &&& end.state.estimated_delay_samples == delay
            &&& end.state.packets_observed <= policy.packets
            &&& end.standing() == CalibrationStatus::Calibrated
        }),
{
    lemma_clean_progress(policy, pattern, captures, delay);
}

/// Convergence with the engine's own signal and rules: when every
/// calibration packet comes back as the calibration pattern delayed by
/// `delay` samples, without noise, the estimate is frozen at exactly
/// `delay` within the engine's budget of calibration packets.
pub proof fn lemma_engine_calibration_converges(captures: Seq<Seq<i16>>, delay: int)
    requires
        0 <= delay <= DELAY_LIMIT,
        all_delayed(calibration_pattern(), captures, delay),
        captures.len() >= CALIBRATION_PACKETS,
    ensures
        ({
            let end = after_captures(
                Calibrator::fresh(CalibrationPolicy::spec_standard(CALIBRATION_PACKETS)),
                calibration_pattern(),
                captures,
            );
            &&& end.state.is_calibrated
            &&& end.state.estimated_delay_samples == delay
            &&& end.state.packets_observed <= CALIBRATION_PACKETS
        }),
{
    lemma_pattern_audible();
    lemma_calibration_converges(
        CalibrationPolicy::spec_standard(CALIBRATION_PACKETS),
        calibration_pattern(),
        captures,
        delay,
    );
}

} // verus!
