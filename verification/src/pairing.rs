//! One pairing of an output with an input: its calibration, the far-end
//! reference that is kept aligned with the input's capture, and the state
//! that says whether echo cancellation can rely on both.

use vstd::prelude::*;
use crate::aligner::{
    counted, delivered, discarded, quiet, remaining, retained, shortfall, ReadResult,
    StreamAligner, WriteResult,
};
use crate::calibrate::{
    CalibrationPolicy, CalibrationState, CalibrationStatus, Calibrator, DELAY_LIMIT,
};
use crate::detect::{detect, detection, Detection};
use crate::driver::silent_frame;

verus! {

/// Where a pairing stands.
#[derive(Clone, Copy, Debug, PartialEq, Eq, Structural)]
pub enum PairingState {
    /// No delay is known: the input is passed through uncancelled.
    Uncalibrated,
    /// Calibration packets are being played and observed.
    Calibrating,
    /// The delay is known and the reference is aligned.
    Active,
    /// The delay is known, but so many samples were lost or padded that the
    /// alignment can no longer be trusted. Cancellation goes on.
    Degraded,
}

/// What can happen to a pairing.
#[derive(Clone, Copy, Debug, PartialEq, Eq, Structural)]
pub enum PairingEvent {
    /// A calibration was started.
    CalibrationStarted,
    /// The calibration froze an estimate.
    CalibrationSucceeded,
    /// The calibration spent its budget without a confident detection.
    CalibrationFailed,
    /// More samples were lost or padded than the canceller can make up for.
    GlitchLimitExceeded,
}

/// The state a pairing is in after `event` happened to it in `state`.
pub open spec fn next_state(state: PairingState, event: PairingEvent) -> PairingState {
    match (state, event) {
        (_, PairingEvent::CalibrationStarted) => PairingState::Calibrating,
        (PairingState::Calibrating, PairingEvent::CalibrationSucceeded) => PairingState::Active,
        (PairingState::Calibrating, PairingEvent::CalibrationFailed) => PairingState::Uncalibrated,
        (PairingState::Active, PairingEvent::GlitchLimitExceeded) => PairingState::Degraded,
        (s, _) => s,
    }
}

/// Moves a pairing from `state` on `event`.
pub fn advance(state: PairingState, event: PairingEvent) -> (next: PairingState)
    ensures
        next == next_state(state, event),
{
    match (state, event) {
        (_, PairingEvent::CalibrationStarted) => PairingState::Calibrating,
        (PairingState::Calibrating, PairingEvent::CalibrationSucceeded) => PairingState::Active,
        (PairingState::Calibrating, PairingEvent::CalibrationFailed) => PairingState::Uncalibrated,
        (PairingState::Active, PairingEvent::GlitchLimitExceeded) => PairingState::Degraded,
        (s, _) => s,
    }
}

/// What a pairing is, as far as its behaviour goes.
pub struct PairingModel {
    /// Where the pairing stands.
    pub state: PairingState,
    /// Its calibration.
    pub calibrator: Calibrator,
    /// The far-end samples waiting to be paired with captured ones, oldest first.
    pub reference: Seq<i16>,
    /// The number of samples the reference can hold.
    pub capacity: nat,
    /// The samples lost or padded on either side since the last calibration.
    pub glitches: u64,
    /// The number of such samples up to which the alignment is trusted.
    pub glitch_limit: u64,
}

impl PairingModel {
    /// Whether the delay of the pairing is known.
    pub open spec fn calibrated(self) -> bool {
        self.state == PairingState::Active || self.state == PairingState::Degraded
    }

    /// The pairing after `more` samples were lost or padded: they are
    /// counted, and an active pairing whose count passes the limit is degraded.
    pub open spec fn with_glitches(self, more: nat) -> PairingModel {
        let glitches = counted(self.glitches, more);
        PairingModel {
            glitches,
            state: if glitches > self.glitch_limit {
                next_state(self.state, PairingEvent::GlitchLimitExceeded)
            } else {
                self.state
            },
            ..self
        }
    }

    /// Counting glitches in two parts is counting their sum.
    pub proof fn lemma_glitches_add(self, first: nat, second: nat)
        ensures
            self.with_glitches(first).with_glitches(second) == self.with_glitches(first + second),
    {
    }

    /// The pairing after a calibration pass was asked for. An uncalibrated
    /// pairing starts calibrating, and so does a calibrated one when
    /// `replay` is set; it then forgets its reference and its glitches.
    /// A pairing that is calibrating goes on. With no packet budget the
    /// calibration has failed before it starts.
    pub open spec fn begun(self, replay: bool) -> PairingModel {
        if self.state == PairingState::Uncalibrated || (self.calibrated() && replay) {
            let calibrator = Calibrator::fresh(self.calibrator.policy);
            PairingModel {
                state: if calibrator.failed {
                    PairingState::Uncalibrated
                } else {
                    next_state(self.state, PairingEvent::CalibrationStarted)
                },
                calibrator,
                reference: Seq::empty(),
                glitches: 0,
                ..self
            }
        } else {
            self
        }
    }

    /// The pairing after the detector found `found` in the capture of one
    /// more calibration packet. Only a calibrating pairing takes it in.
    /// When that freezes the estimate, the pairing becomes active and its
    /// reference is set to as many samples of silence as the delay is long;
    /// when it spends the budget, the pairing is uncalibrated again.
    pub open spec fn observed(self, found: Option<Detection>) -> PairingModel {
        if self.state != PairingState::Calibrating {
            self
        } else {
            let calibrator = self.calibrator.observed(found);
            match calibrator.standing() {
                CalibrationStatus::Pending => PairingModel { calibrator, ..self },
                CalibrationStatus::Failed => PairingModel {
                    calibrator,
                    state: next_state(self.state, PairingEvent::CalibrationFailed),
                    ..self
                },
                CalibrationStatus::Calibrated => {
                    let delay = calibrator.state.estimated_delay_samples as nat;
                    (PairingModel {
                        calibrator,
                        state: next_state(self.state, PairingEvent::CalibrationSucceeded),
                        reference: retained(Seq::empty(), quiet(delay, 0i16), self.capacity),
                        glitches: 0,
                        ..self
                    }).with_glitches(discarded(0, delay, self.capacity))
                },
            }
        }
    }

    /// The pairing after `samples` were written to its output. A calibrated
    /// pairing appends them to its reference and counts what overflows.
    pub open spec fn fed(self, samples: Seq<i16>) -> PairingModel {
        if self.calibrated() {
            (PairingModel {
                reference: retained(self.reference, samples, self.capacity),
                ..self
            }).with_glitches(discarded(self.reference.len(), samples.len(), self.capacity))
        } else {
            self
        }
    }

    /// The far-end frame of `frame` samples that belongs to the next
    /// captured frame: the oldest samples of the reference, padded with
    /// silence where they run out; silence where the delay is not known.
    pub open spec fn far_frame(self, frame: nat) -> Seq<i16> {
        if self.calibrated() {
            delivered(self.reference, frame, 0i16)
        } else {
            quiet(frame, 0i16)
        }
    }

    /// The pairing after one processing tick in which the captured frame
    /// was `near_missing` samples short. A calibrated pairing gives up the
    /// far-end frame and counts the samples missing on either side.
    pub open spec fn ticked(self, frame: nat, near_missing: nat) -> PairingModel {
        if self.calibrated() {
            (PairingModel { reference: remaining(self.reference, frame), ..self }).with_glitches(
                shortfall(self.reference.len(), frame) + near_missing,
            )
        } else {
            self
        }
    }

    /// The pairing after its input lost `lost` captured samples.
    pub open spec fn jolted(self, lost: nat) -> PairingModel {
        if self.calibrated() {
            self.with_glitches(lost)
        } else {
            self
        }
    }
}

/// One pairing of an output with an input.
pub struct Pairing {
    state: PairingState,
    calibrator: Calibrator,
    reference: StreamAligner<i16>,
    glitches: u64,
    glitch_limit: u64,
}

impl View for Pairing {
    type V = PairingModel;

    closed spec fn view(&self) -> PairingModel {
        PairingModel {
            state: self.state,
            calibrator: self.calibrator,
            reference: self.reference@,
            capacity: self.reference.spec_capacity(),
            glitches: self.glitches,
            glitch_limit: self.glitch_limit,
        }
    }
}

impl Pairing {
    /// The representation invariant: a sound calibration and reference, and
    /// a calibration that is still running while the pairing is calibrating.
    pub closed spec fn wf(&self) -> bool {
        &&& self.calibrator.wf()
        &&& self.reference.wf()
        &&& self.reference.spec_silence() == 0
        &&& self.state == PairingState::Calibrating ==> !self.calibrator.settled()
    }

    /// What follows from the invariant for the view.
    pub proof fn lemma_wf(&self)
        requires
            self.wf(),
        ensures
            self@.calibrator.wf(),
            self@.reference.len() <= self@.capacity,
            0 < self@.capacity <= usize::MAX,
            self@.state == PairingState::Calibrating ==> !self@.calibrator.settled(),
    {
        self.reference.lemma_bounded();
    }

    /// An uncalibrated pairing that calibrates under `policy`, keeps up to
    /// `capacity` far-end samples and tolerates `glitch_limit` lost or padded
    /// samples; `None` when `capacity` is zero.
    pub fn new(policy: CalibrationPolicy, capacity: usize, glitch_limit: u64) -> (made: Option<
        Pairing,
    >)
        ensures
            made is Some <==> capacity > 0,
            made matches Some(p) ==> p.wf() && p@ == (PairingModel {
                state: PairingState::Uncalibrated,
                calibrator: Calibrator::fresh(policy),
                reference: Seq::empty(),
                capacity: capacity as nat,
                glitches: 0,
                glitch_limit,
            }),
    {
        match StreamAligner::new(capacity, 0i16) {
            None => None,
            Some(reference) => Some(
                Pairing {
                    state: PairingState::Uncalibrated,
                    calibrator: Calibrator::new(policy),
                    reference,
                    glitches: 0,
                    glitch_limit,
                },
            ),
        }
    }

    /// Where the pairing stands.
    pub fn state(&self) -> (state: PairingState)
        ensures
            state == self@.state,
    {
        self.state
    }

    /// Whether the delay of the pairing is known.
    pub fn is_calibrated(&self) -> (yes: bool)
        ensures
            yes == self@.calibrated(),
    {
        match self.state {
            PairingState::Active => true,
            PairingState::Degraded => true,
            _ => false,
        }
    }

    /// What is known of the delay.
    pub fn calibration(&self) -> (state: CalibrationState)
        ensures
            state == self@.calibrator.state,
    {
        self.calibrator.state()
    }

    /// The samples lost or padded since the last calibration.
    pub fn glitches(&self) -> (n: u64)
        ensures
            n == self@.glitches,
    {
        self.glitches
    }

    /// Counts `more` lost or padded samples.
    fn count_glitches(&mut self, more: usize)
        requires
            old(self).wf(),
        ensures
            final(self).wf(),
            final(self)@ == old(self)@.with_glitches(more as nat),
    {
        self.glitches = self.glitches.saturating_add(more as u64);
        if self.glitches > self.glitch_limit {
            self.state = advance(self.state, PairingEvent::GlitchLimitExceeded);
        }
    }

    /// Asks for a calibration pass.
    pub fn begin(&mut self, replay: bool)
        requires
            old(self).wf(),
        ensures
            final(self).wf(),
            final(self)@ == old(self)@.begun(replay),
    {
        let restart = match self.state {
            PairingState::Uncalibrated => true,
            PairingState::Calibrating => false,
            _ => replay,
        };
        if restart {
            self.calibrator = Calibrator::new(self.calibrator.policy);
            self.reference.clear();
            self.glitches = 0;
            self.state = if self.calibrator.failed {
                PairingState::Uncalibrated
            } else {
                advance(self.state, PairingEvent::CalibrationStarted)
            };
        }
    }

    /// Takes in what the detector found in the capture of one more
    /// calibration packet.
    pub fn absorb(&mut self, found: Option<Detection>) -> (state: PairingState)
        requires
            old(self).wf(),
        ensures
            final(self).wf(),
            final(self)@ == old(self)@.observed(found),
            state == final(self)@.state,
    {
        match self.state {
            PairingState::Calibrating => {},
            _ => {
                return self.state;
            },
        }
        match self.calibrator.absorb(found) {
            CalibrationStatus::Pending => {},
            CalibrationStatus::Failed => {
                self.state = advance(self.state, PairingEvent::CalibrationFailed);
            },
            CalibrationStatus::Calibrated => {
                let delay = self.calibrator.state.estimated_delay_samples as usize;
                self.reference.clear();
                self.glitches = 0;
                self.state = advance(self.state, PairingEvent::CalibrationSucceeded);
                match self.reference.write_silence(delay) {
                    WriteResult::Written => {
                        self.count_glitches(0);
                    },
                    WriteResult::Overrun { dropped } => {
                        self.count_glitches(dropped);
                    },
                }
            },
        }
        self.state
    }

    /// Observes one more calibration packet: searches `capture` for
    /// `pattern` and takes in what the detector finds.
    pub fn observe(&mut self, pattern: &[i16], capture: &[i16]) -> (state: PairingState)
        requires
            old(self).wf(),
        ensures
            final(self).wf(),
            final(self)@ == old(self)@.observed(detection(pattern@, capture@)),
            state == final(self)@.state,
    {
        match self.state {
            PairingState::Calibrating => {
                let found = detect(pattern, capture);
                self.absorb(found)
            },
            _ => self.state,
        }
    }

    /// Records `samples` as written to the output.
    pub fn feed(&mut self, samples: &[i16])
        requires
            old(self).wf(),
        ensures
            final(self).wf(),
            final(self)@ == old(self)@.fed(samples@),
    {
        if self.is_calibrated() {
            proof {
                self.reference.lemma_bounded();
                assert(samples.len() == samples@.len());
            }
            match self.reference.write(samples) {
                WriteResult::Written => {
                    self.count_glitches(0);
                },
                WriteResult::Overrun { dropped } => {
                    self.count_glitches(dropped);
                },
            }
        }
    }

    /// Hands out the far-end frame of `frame` samples for the next captured
    /// frame, which was `near_missing` samples short.
    pub fn tick(&mut self, frame: usize, near_missing: usize) -> (far: Vec<i16>)
        requires
            old(self).wf(),
        ensures
            final(self).wf(),
            final(self)@ == old(self)@.ticked(frame as nat, near_missing as nat),
            far@ == old(self)@.far_frame(frame as nat),
            far@.len() == frame,
    {
        let mut far = silent_frame(frame);
        if self.is_calibrated() {
            match self.reference.read_into(far.as_mut_slice()) {
                ReadResult::Filled => {
                    self.count_glitches(near_missing);
                },
                ReadResult::Underrun { shortfall } => {
                    proof {
                        old(self)@.lemma_glitches_add(shortfall as nat, near_missing as nat);
                    }
                    self.count_glitches(shortfall);
                    self.count_glitches(near_missing);
                },
            }
        }
        far
    }

    /// Records that the input lost `lost` captured samples.
    pub fn jolt(&mut self, lost: usize)
        requires
            old(self).wf(),
        ensures
            final(self).wf(),
            final(self)@ == old(self)@.jolted(lost as nat),
    {
        if self.is_calibrated() {
            self.count_glitches(lost);
        }
    }
}

/// The pairing after as many rounds as there are `frames`: in every round
/// one frame is written to the output and then one tick is run on a full
/// captured frame.
pub open spec fn paced(start: PairingModel, frames: Seq<Seq<i16>>, frame: nat) -> PairingModel
    decreases frames.len(),
{
    if frames.len() == 0 {
        start
    } else {
        paced(start, frames.drop_last(), frame).fed(frames.last()).ticked(frame, 0)
    }
}

/// Alignment: a pairing that was calibrated to `delay` samples and is fed
/// one frame per tick hands out, tick by tick, exactly what was written to
/// its output `delay` samples earlier, with silence before the first written
/// sample. Nothing is lost or padded on the way.
pub proof fn lemma_far_end_is_delayed(
    start: PairingModel,
    frames: Seq<Seq<i16>>,
    frame: nat,
    delay: nat,
)
    requires
        start.calibrated(),
        start.reference == quiet(delay, 0i16),
        delay + frame <= start.capacity,
        forall|k: int| 0 <= k < frames.len() ==> (#[trigger] frames[k]).len() == frame,
    ensures
        frames.flatten().len() == frames.len() * frame,
        ({
            let played = quiet(delay, 0i16) + frames.flatten();
            let end = paced(start, frames, frame);
            &&& end.calibrated()
            &&& end.glitches == start.glitches
            &&& end.capacity == start.capacity
            &&& end.reference == played.skip((frames.len() * frame) as int)
            &&& frames.len() > 0 ==> paced(start, frames.drop_last(), frame).fed(
                frames.last(),
            ).far_frame(frame) == played.subrange(
                (frames.len() - 1) * frame,
                (frames.len() * frame) as int,
            )
        }),
    decreases frames.len(),
{
    let silence = quiet(delay, 0i16);
    if frames.len() == 0 {
        assert(frames.flatten() =~= Seq::<i16>::empty());
        assert(0 * frame == 0) by (nonlinear_arith);
        assert((silence + frames.flatten()).skip(0) =~= silence);
    } else {
        let front = frames.drop_last();
        let last = frames.last();
        let n = frames.len() as int;
        assert forall|k: int| 0 <= k < front.len() implies (#[trigger] front[k]).len() == frame by {
            assert(front[k] == frames[k]);
        }
        lemma_far_end_is_delayed(start, front, frame, delay);
        front.lemma_flatten_push(last);
        assert(front.push(last) =~= frames);
        assert(n * frame == (n - 1) * frame + frame && (n - 1) * frame >= 0) by (nonlinear_arith)
            requires
                n >= 1,
        ;
        let played = silence + frames.flatten();
        let before = paced(start, front, frame);
        let earlier = silence + front.flatten();
        assert(before.reference == earlier.skip((n - 1) * frame));
        assert(before.reference.len() == delay);
        assert(before.reference + last =~= played.skip((n - 1) * frame));
        let fed = before.fed(last);
        assert(fed.reference == played.skip((n - 1) * frame));
        assert(fed.glitches == before.glitches);
        assert(fed.far_frame(frame) =~= played.subrange((n - 1) * frame, n * frame));
        assert(fed.ticked(frame, 0).reference =~= played.skip(n * frame));
    }
}

} // verus!
