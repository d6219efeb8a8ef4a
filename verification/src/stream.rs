//! The orchestrator: owns the attached devices and their queues, pairs every
//! output with every input, and runs calibration rounds and processing ticks
//! over all of them.

use vstd::prelude::*;
use crate::aligner::{
    capacity_for, counted, delivered, discarded, read_report, remaining, retained, shortfall,
    write_report, ReadResult, StreamAligner, WriteResult,
};
use crate::calibrate::{CalibrationPolicy, CalibrationState, CalibrationStatus, Calibrator};
use crate::detect::detection;
use crate::pattern::{calibration_pattern, make_pattern};
use crate::config::{
    check_format, checked_config, checked_format, AecConfig, ConfigError, InputDeviceConfig,
    OutputDeviceConfig, MAX_DEVICES,
};
use crate::driver::{copy_frame, mix, mixed, silent_frame, EchoCanceller, EchoDriver};
use crate::pairing::{Pairing, PairingModel, PairingState};

verus! {

/// Why the stream refused an operation.
#[derive(Clone, Copy, Debug, PartialEq, Eq, Structural)]
pub enum AecError {
    /// A configuration or a device format was rejected.
    Config(ConfigError),
    /// No device is attached.
    NoDevices,
    /// A handle names a device that is not attached to this stream.
    UnknownDevice,
}

impl AecError {
    /// What went wrong, in words.
    pub open spec fn description(self) -> Seq<char> {
        match self {
            AecError::Config(e) => e.description(),
            AecError::NoDevices => "no device is attached"@,
            AecError::UnknownDevice => "the device is not attached to this stream"@,
        }
    }

    /// What went wrong, in words.
    pub fn describe(&self) -> (text: &'static str)
        ensures
            text@ == self.description(),
    {
        match self {
            AecError::Config(e) => e.describe(),
            AecError::NoDevices => "no device is attached",
            AecError::UnknownDevice => "the device is not attached to this stream",
        }
    }
}

/// The write-side handle to the queue of one attached output.
#[derive(Clone, Copy, Debug, PartialEq, Eq, Structural)]
pub struct StreamAlignerProducer {
    output: usize,
}

impl StreamAlignerProducer {
    /// The position of the output among the attached outputs.
    pub closed spec fn spec_output(self) -> nat {
        self.output as nat
    }

    /// The position of the output among the attached outputs.
    pub fn output(&self) -> (position: usize)
        ensures
            position == self.spec_output(),
    {
        self.output
    }
}

/// What an attached input is, as far as its behaviour goes.
pub struct InputModel {
    /// The format the device was attached with.
    pub config: InputDeviceConfig,
    /// The captured samples waiting to be processed, oldest first.
    pub capture: Seq<i16>,
    /// The number of samples the capture queue can hold.
    pub capacity: nat,
    /// The pairings with the attached outputs, in the order of the outputs.
    pub pairings: Seq<PairingModel>,
    /// The number of frames handed to the input's canceller.
    pub frames_cancelled: u64,
    /// The number of captured samples discarded because the queue was full.
    pub overruns: u64,
    /// The number of samples of silence handed out because the queue was empty.
    pub underruns: u64,
}

/// What an attached output is, as far as its behaviour goes.
pub struct OutputModel {
    /// The format the device was attached with.
    pub config: OutputDeviceConfig,
    /// The samples waiting to be played, oldest first.
    pub playback: Seq<i16>,
    /// The number of samples the playback queue can hold.
    pub capacity: nat,
    /// The number of written samples discarded because the queue was full.
    pub overruns: u64,
    /// The number of samples of silence handed out because the queue was empty.
    pub underruns: u64,
}

/// What a stream is, as far as its behaviour goes.
pub struct StreamModel {
    /// The processing configuration.
    pub config: AecConfig,
    /// The attached inputs, in the order in which they were attached.
    pub inputs: Seq<InputModel>,
    /// The attached outputs, in the order in which they were attached.
    pub outputs: Seq<OutputModel>,
}

/// The number of samples of far-end history kept for an output attached
/// with `config`: `history_len` frames.
pub open spec fn reference_capacity(config: OutputDeviceConfig, frame_size: usize) -> nat {
    (config.history_len as nat) * (frame_size as nat)
}

/// The pairing that a newly attached output or input starts with:
/// uncalibrated, with the output's packet budget and room for its far-end
/// history, and trusted for as long as no more samples were lost or padded
/// than the canceller's filter is long.
pub open spec fn new_pairing(output: OutputDeviceConfig, config: AecConfig) -> PairingModel {
    PairingModel {
        state: PairingState::Uncalibrated,
        calibrator: Calibrator::fresh(CalibrationPolicy::spec_standard(output.calibration_packets)),
        reference: Seq::empty(),
        capacity: reference_capacity(output, config.frame_size),
        glitches: 0,
        glitch_limit: config.filter_length as u64,
    }
}

/// The sum of the channel counts of the first `count` inputs.
pub open spec fn input_channel_sum(inputs: Seq<InputModel>, count: nat) -> nat
    decreases count,
{
    if count == 0 {
        0
    } else {
        input_channel_sum(inputs, (count - 1) as nat) + inputs[count - 1].config.channels as nat
    }
}

/// The sum of the channel counts of the first `count` outputs.
pub open spec fn output_channel_sum(outputs: Seq<OutputModel>, count: nat) -> nat
    decreases count,
{
    if count == 0 {
        0
    } else {
        output_channel_sum(outputs, (count - 1) as nat) + outputs[count - 1].config.channels as nat
    }
}

impl OutputModel {
    /// The output after `samples` were written to it: they are appended to
    /// the playback queue, which discards its oldest samples to make room.
    pub open spec fn written(self, samples: Seq<i16>) -> OutputModel {
        OutputModel {
            playback: retained(self.playback, samples, self.capacity),
            overruns: counted(
                self.overruns,
                discarded(self.playback.len(), samples.len(), self.capacity),
            ),
            ..self
        }
    }

    /// The output after its device pulled `count` samples.
    pub open spec fn pulled(self, count: nat) -> OutputModel {
        OutputModel {
            playback: remaining(self.playback, count),
            underruns: counted(self.underruns, shortfall(self.playback.len(), count)),
            ..self
        }
    }
}

impl InputModel {
    /// The input after its device delivered `samples`: they are appended to
    /// the capture queue, and what the queue discards to make room is
    /// counted against every calibrated pairing.
    pub open spec fn captured(self, samples: Seq<i16>) -> InputModel {
        let lost = discarded(self.capture.len(), samples.len(), self.capacity);
        InputModel {
            capture: retained(self.capture, samples, self.capacity),
            overruns: counted(self.overruns, lost),
            pairings: Seq::new(self.pairings.len(), |o: int| self.pairings[o].jolted(lost)),
            ..self
        }
    }

    /// The input after `samples` were written to output `output`.
    pub open spec fn heard(self, output: int, samples: Seq<i16>) -> InputModel {
        InputModel {
            pairings: self.pairings.update(output, self.pairings[output].fed(samples)),
            ..self
        }
    }

    /// Whether the input's capture is cancelled: every output it is paired
    /// with is calibrated.
    pub open spec fn cancelling(self) -> bool {
        forall|o: int| 0 <= o < self.pairings.len() ==> (#[trigger] self.pairings[o]).calibrated()
    }

    /// The near-end frame of the next tick: the oldest captured samples,
    /// padded with silence where they run out.
    pub open spec fn near_frame(self, frame: nat) -> Seq<i16> {
        delivered(self.capture, frame, 0i16)
    }

    /// The far-end frames of the next tick, one for every output.
    pub open spec fn far_frames(self, frame: nat) -> Seq<Seq<i16>> {
        Seq::new(self.pairings.len(), |o: int| self.pairings[o].far_frame(frame))
    }

    /// The far-end frame of the next tick: the mix of the far-end frames of
    /// all outputs.
    pub open spec fn far_frame(self, frame: nat) -> Seq<i16> {
        mixed(self.far_frames(frame), frame)
    }

    /// The input after one tick: a frame has left the capture queue, every
    /// pairing has given up its far-end frame, and the canceller has seen
    /// one more frame if the capture is cancelled.
    pub open spec fn ticked(self, frame: nat) -> InputModel {
        let missing = shortfall(self.capture.len(), frame);
        InputModel {
            capture: remaining(self.capture, frame),
            underruns: counted(self.underruns, missing),
            pairings: Seq::new(
                self.pairings.len(),
                |o: int| self.pairings[o].ticked(frame, missing),
            ),
            frames_cancelled: if self.cancelling() {
                counted(self.frames_cancelled, 1)
            } else {
                self.frames_cancelled
            },
            ..self
        }
    }
}

impl InputModel {
    /// Whether a pairing of the input with one of the outputs that `mask`
    /// selects is in `state`.
    pub open spec fn has(self, mask: Seq<bool>, state: PairingState) -> bool {
        exists|o: int|
            0 <= o < self.pairings.len() && mask[o] && (#[trigger] self.pairings[o]).state == state
    }

    /// The input after one calibration round on the outputs that `mask`
    /// selects. Its capture queue is emptied. While a pass is running,
    /// every selected pairing observes what was captured since the last
    /// packet was played; otherwise a pass is asked of every selected pairing.
    pub open spec fn calibrated(self, mask: Seq<bool>, running: bool, replay: bool) -> InputModel {
        InputModel {
            capture: Seq::empty(),
            pairings: Seq::new(
                self.pairings.len(),
                |o: int|
                    if !mask[o] {
                        self.pairings[o]
                    } else if running {
                        self.pairings[o].observed(detection(calibration_pattern(), self.capture))
                    } else {
                        self.pairings[o].begun(replay)
                    },
            ),
            ..self
        }
    }
}

/// The outputs that `producers` name, as a mask over `outputs` outputs.
pub open spec fn mask_of(producers: Seq<StreamAlignerProducer>, outputs: nat) -> Seq<bool> {
    Seq::new(
        outputs,
        |o: int|
            exists|k: int| 0 <= k < producers.len() && (#[trigger] producers[k]).spec_output() == o,
    )
}

/// Whether every producer names one of `outputs` outputs.
pub open spec fn all_known(producers: Seq<StreamAlignerProducer>, outputs: nat) -> bool {
    forall|k: int| 0 <= k < producers.len() ==> (#[trigger] producers[k]).spec_output() < outputs
}

impl StreamModel {
    /// Whether a pairing with one of the outputs that `mask` selects is in `state`.
    pub open spec fn has(self, mask: Seq<bool>, state: PairingState) -> bool {
        exists|i: int| 0 <= i < self.inputs.len() && (#[trigger] self.inputs[i]).has(mask, state)
    }

    /// Whether a pairing of output `output` is calibrating.
    pub open spec fn listening(self, output: int) -> bool {
        exists|i: int|
            0 <= i < self.inputs.len() && (#[trigger] self.inputs[i]).pairings[output].state
                == PairingState::Calibrating
    }

    /// The verdict on a calibration round on the outputs that `producers`
    /// name: it needs an input and an output, and producers that name
    /// attached outputs.
    pub open spec fn round_verdict(self, producers: Seq<StreamAlignerProducer>) -> Result<
        (),
        AecError,
    > {
        if self.inputs.len() == 0 || self.outputs.len() == 0 {
            Err(AecError::NoDevices)
        } else if !all_known(producers, self.outputs.len()) {
            Err(AecError::UnknownDevice)
        } else {
            Ok(())
        }
    }

    /// The stream after the pairings of the selected outputs took their
    /// part in a calibration round.
    pub open spec fn observed(self, mask: Seq<bool>, replay: bool) -> StreamModel {
        let running = self.has(mask, PairingState::Calibrating);
        StreamModel {
            inputs: Seq::new(
                self.inputs.len(),
                |i: int| self.inputs[i].calibrated(mask, running, replay),
            ),
            ..self
        }
    }

    /// The stream after the next calibration packet was played on every
    /// selected output that still has a calibrating pairing.
    pub open spec fn played(self, mask: Seq<bool>) -> StreamModel {
        StreamModel {
            outputs: Seq::new(
                self.outputs.len(),
                |o: int|
                    if mask[o] && self.listening(o) {
                        self.outputs[o].written(calibration_pattern())
                    } else {
                        self.outputs[o]
                    },
            ),
            ..self
        }
    }

    /// The stream after one calibration round on the outputs that `mask`
    /// selects: the pairings observe or begin, then the next packet is played.
    pub open spec fn calibrated(self, mask: Seq<bool>, replay: bool) -> StreamModel {
        self.observed(mask, replay).played(mask)
    }

    /// Where the calibration of the selected outputs stands: pending while
    /// one of their pairings is calibrating, failed when none is but one is
    /// uncalibrated, calibrated otherwise.
    pub open spec fn standing(self, mask: Seq<bool>) -> CalibrationStatus {
        if self.has(mask, PairingState::Calibrating) {
            CalibrationStatus::Pending
        } else if self.has(mask, PairingState::Uncalibrated) {
            CalibrationStatus::Failed
        } else {
            CalibrationStatus::Calibrated
        }
    }

    /// The stream after `samples` were written to output `output`: they
    /// wait in its playback queue, and every pairing of the output has
    /// recorded them as far-end reference.
    pub open spec fn written(self, output: int, samples: Seq<i16>) -> StreamModel {
        StreamModel {
            outputs: self.outputs.update(output, self.outputs[output].written(samples)),
            inputs: Seq::new(self.inputs.len(), |i: int| self.inputs[i].heard(output, samples)),
            ..self
        }
    }

    /// The stream after the device of output `output` pulled `count` samples.
    pub open spec fn pulled(self, output: int, count: nat) -> StreamModel {
        StreamModel {
            outputs: self.outputs.update(output, self.outputs[output].pulled(count)),
            ..self
        }
    }

    /// The stream after the device of input `input` delivered `samples`.
    pub open spec fn captured(self, input: int, samples: Seq<i16>) -> StreamModel {
        StreamModel {
            inputs: self.inputs.update(input, self.inputs[input].captured(samples)),
            ..self
        }
    }

    /// The stream after one processing tick.
    pub open spec fn ticked(self) -> StreamModel {
        StreamModel {
            inputs: Seq::new(
                self.inputs.len(),
                |i: int| self.inputs[i].ticked(self.config.frame_size as nat),
            ),
            ..self
        }
    }

    /// The number of input channels: the sum over the attached inputs.
    pub open spec fn input_channels(self) -> nat {
        input_channel_sum(self.inputs, self.inputs.len())
    }

    /// The number of output channels: the sum over the attached outputs.
    pub open spec fn output_channels(self) -> nat {
        output_channel_sum(self.outputs, self.outputs.len())
    }

    /// The verdict on attaching an output with `config`: the first rule it
    /// breaks, if any.
    pub open spec fn output_verdict(self, config: OutputDeviceConfig) -> Result<(), ConfigError> {
        if checked_format(config.channels, config.sample_rate, config.sample_format) is Err {
            checked_format(config.channels, config.sample_rate, config.sample_format)
        } else if !(0 < capacity_for(
            config.audio_buffer_seconds,
            config.sample_rate,
            config.channels,
        ) <= usize::MAX) {
            Err(ConfigError::BufferSize)
        } else if !(0 < reference_capacity(config, self.config.frame_size) <= usize::MAX) {
            Err(ConfigError::BufferSize)
        } else if self.outputs.len() >= MAX_DEVICES {
            Err(ConfigError::TooManyDevices)
        } else {
            Ok(())
        }
    }

    /// The verdict on attaching an input with `config`: the first rule it
    /// breaks, if any.
    pub open spec fn input_verdict(self, config: InputDeviceConfig) -> Result<(), ConfigError> {
        if checked_format(config.channels, config.sample_rate, config.sample_format) is Err {
            checked_format(config.channels, config.sample_rate, config.sample_format)
        } else if !(0 < capacity_for(
            config.audio_buffer_seconds,
            config.sample_rate,
            config.channels,
        ) <= usize::MAX) {
            Err(ConfigError::BufferSize)
        } else if self.inputs.len() >= MAX_DEVICES {
            Err(ConfigError::TooManyDevices)
        } else {
            Ok(())
        }
    }

    /// The stream after an output with `config` was attached: the output
    /// has an empty playback queue, and every input has an uncalibrated
    /// pairing with it.
    pub open spec fn with_output(self, config: OutputDeviceConfig) -> StreamModel {
        StreamModel {
            outputs: self.outputs.push(
                OutputModel {
                    config,
                    playback: Seq::empty(),
                    capacity: capacity_for(
                        config.audio_buffer_seconds,
                        config.sample_rate,
                        config.channels,
                    ),
                    overruns: 0,
                    underruns: 0,
                },
            ),
            inputs: Seq::new(
                self.inputs.len(),
                |i: int|
                    InputModel {
                        pairings: self.inputs[i].pairings.push(new_pairing(config, self.config)),
                        ..self.inputs[i]
                    },
            ),
            ..self
        }
    }

    /// The stream after an input with `config` was attached: the input has
    /// an empty capture queue and an uncalibrated pairing with every output.
    pub open spec fn with_input(self, config: InputDeviceConfig) -> StreamModel {
        StreamModel {
            inputs: self.inputs.push(
                InputModel {
                    config,
                    capture: Seq::empty(),
                    capacity: capacity_for(
                        config.audio_buffer_seconds,
                        config.sample_rate,
                        config.channels,
                    ),
                    pairings: Seq::new(
                        self.outputs.len(),
                        |o: int| new_pairing(self.outputs[o].config, self.config),
                    ),
                    frames_cancelled: 0,
                    overruns: 0,
                    underruns: 0,
                },
            ),
            ..self
        }
    }
}

/// What one tick processed: for every input the near-end frame, the far-end
/// frame and the frame that was handed on, with the channel counts and the
/// time span of the tick.
#[derive(Debug)]
pub struct DebugFrame {
    /// The near-end frame of every input.
    pub near: Vec<Vec<i16>>,
    /// The far-end frame of every input.
    pub far: Vec<Vec<i16>>,
    /// The frame handed on for every input.
    pub cancelled: Vec<Vec<i16>>,
    /// The number of input channels.
    pub input_channels: usize,
    /// The number of output channels.
    pub output_channels: usize,
    /// When the tick started, in microseconds.
    pub start_micros: u64,
    /// When the tick ended, in microseconds; never before it started.
    pub end_micros: u64,
}

impl DebugFrame {
    /// Stamps the frame with the time at which the tick ended. A time before
    /// the start is taken to be the start.
    pub fn close(self, end_micros: u64) -> (closed: DebugFrame)
        ensures
            closed.near == self.near,
            closed.far == self.far,
            closed.cancelled == self.cancelled,
            closed.input_channels == self.input_channels,
            closed.output_channels == self.output_channels,
            closed.start_micros == self.start_micros,
            closed.end_micros == if end_micros < self.start_micros {
                self.start_micros
            } else {
                end_micros
            },
    {
        let end = if end_micros < self.start_micros {
            self.start_micros
        } else {
            end_micros
        };
        DebugFrame {
            near: self.near,
            far: self.far,
            cancelled: self.cancelled,
            input_channels: self.input_channels,
            output_channels: self.output_channels,
            start_micros: self.start_micros,
            end_micros: end,
        }
    }
}

/// Whether `near` and `far` are the frames that the next tick of `stream`
/// takes in, input by input.
pub open spec fn frames_taken(stream: StreamModel, near: Seq<Vec<i16>>, far: Seq<Vec<i16>>) -> bool {
    let frame = stream.config.frame_size as nat;
    &&& near.len() == stream.inputs.len()
    &&& far.len() == stream.inputs.len()
    &&& forall|i: int|
        0 <= i < stream.inputs.len() ==> (#[trigger] near[i])@ == stream.inputs[i].near_frame(frame)
    &&& forall|i: int|
        0 <= i < stream.inputs.len() ==> (#[trigger] far[i])@ == stream.inputs[i].far_frame(frame)
}

/// Whether `cancelled` can be what the next tick of `stream` hands on: one
/// frame of the configured size for every input, and where an input has a
/// pairing that is not calibrated, exactly its near-end frame.
pub open spec fn frames_handed_on(stream: StreamModel, cancelled: Seq<Vec<i16>>) -> bool {
    let frame = stream.config.frame_size as nat;
    &&& cancelled.len() == stream.inputs.len()
    &&& forall|i: int|
        0 <= i < stream.inputs.len() ==> {
            &&& (#[trigger] cancelled[i])@.len() == frame
            &&& !stream.inputs[i].cancelling() ==> cancelled[i]@ == stream.inputs[i].near_frame(
                frame,
            )
        }
}

/// Pass-through: where a pairing of an input is uncalibrated, what a tick
/// hands on for that input is exactly what the input captured, sample for
/// sample: the near-end frame, untouched.
pub proof fn lemma_uncalibrated_passes_through(
    stream: StreamModel,
    cancelled: Seq<Vec<i16>>,
    input: int,
    output: int,
)
    requires
        frames_handed_on(stream, cancelled),
        0 <= input < stream.inputs.len(),
        0 <= output < stream.inputs[input].pairings.len(),
        stream.inputs[input].pairings[output].state == PairingState::Uncalibrated,
    ensures
        cancelled[input]@ == stream.inputs[input].near_frame(stream.config.frame_size as nat),
        cancelled[input]@ == delivered(
            stream.inputs[input].capture,
            stream.config.frame_size as nat,
            0i16,
        ),
{
    assert(!stream.inputs[input].pairings[output].calibrated());
    assert(!stream.inputs[input].cancelling());
}

/// One attached input: its capture queue, its canceller and its pairings.
struct InputPipeline<C> {
    config: InputDeviceConfig,
    capture: StreamAligner<i16>,
    driver: EchoDriver<C>,
    links: Vec<Pairing>,
}

/// One attached output: its playback queue.
struct OutputPipeline {
    config: OutputDeviceConfig,
    playback: StreamAligner<i16>,
    reference_capacity: usize,
}

impl<C: EchoCanceller> InputPipeline<C> {
    spec fn model(&self) -> InputModel {
        InputModel {
            config: self.config,
            capture: self.capture@,
            capacity: self.capture.spec_capacity(),
            pairings: Seq::new(self.links@.len(), |o: int| self.links@[o]@),
            frames_cancelled: self.driver.spec_frames_processed(),
            overruns: self.capture.spec_overrun_samples(),
            underruns: self.capture.spec_underrun_samples(),
        }
    }

    spec fn wf(&self, frame_size: usize) -> bool {
        &&& self.capture.wf()
        &&& self.capture.spec_silence() == 0
        &&& self.driver.spec_frame_size() == frame_size
        &&& forall|o: int| 0 <= o < self.links@.len() ==> (#[trigger] self.links@[o]).wf()
    }

    /// Takes in samples delivered by the device.
    fn capture(&mut self, samples: &[i16], Ghost(frame_size): Ghost<usize>) -> (report: WriteResult)
        requires
            old(self).wf(frame_size),
        ensures
            final(self).wf(frame_size),
            final(self).links@.len() == old(self).links@.len(),
            final(self).model() == old(self).model().captured(samples@),
            report == write_report(
                discarded(
                    old(self).model().capture.len(),
                    samples@.len(),
                    old(self).model().capacity,
                ),
            ),
    {
        let ghost before = self.model();
        proof {
            self.capture.lemma_bounded();
            assert(samples.len() == samples@.len());
        }
        let report = self.capture.write(samples);
        let lost: usize = match report {
            WriteResult::Written => 0,
            WriteResult::Overrun { dropped } => dropped,
        };
        let count = self.links.len();
        let mut o: usize = 0;
        while o < count
            invariant
                o <= count,
                count == self.links@.len(),
                count == old(self).links@.len(),
                self.capture.wf(),
                self.capture.spec_silence() == 0,
                self.driver == old(self).driver,
                self.config == old(self).config,
                self.capture@ == before.captured(samples@).capture,
                self.capture.spec_capacity() == before.capacity,
                self.capture.spec_overrun_samples() == before.captured(samples@).overruns,
                self.capture.spec_underrun_samples() == before.underruns,
                before == old(self).model(),
                lost == discarded(before.capture.len(), samples@.len(), before.capacity),
                forall|k: int| o <= k < count ==> self.links@[k] == old(self).links@[k],
                forall|k: int| 0 <= k < count ==> (#[trigger] self.links@[k]).wf(),
                forall|k: int|
                    0 <= k < o ==> (#[trigger] self.links@[k])@ == before.pairings[k].jolted(
                        lost as nat,
                    ),
            decreases count - o,
        {
            self.links[o].jolt(lost);
            o += 1;
        }
        assert(self.model().pairings =~= before.captured(samples@).pairings);
        report
    }

    /// Records samples written to output `output`.
    fn hear(&mut self, output: usize, samples: &[i16], Ghost(frame_size): Ghost<usize>)
        requires
            old(self).wf(frame_size),
            output < old(self).links@.len(),
        ensures
            final(self).wf(frame_size),
            final(self).links@.len() == old(self).links@.len(),
            final(self).model() == old(self).model().heard(output as int, samples@),
    {
        let ghost before = self.model();
        self.links[output].feed(samples);
        assert(self.model().pairings =~= before.heard(output as int, samples@).pairings);
    }

    /// Whether a pairing with one of the outputs that `mask` selects is in `state`.
    fn has_state(&self, mask: &Vec<bool>, state: PairingState, Ghost(frame_size): Ghost<usize>) -> (yes: bool)
        requires
            self.wf(frame_size),
            mask@.len() == self.links@.len(),
        ensures
            yes == self.model().has(mask@, state),
    {
        let ghost model = self.model();
        let count = self.links.len();
        let mut o: usize = 0;
        while o < count
            invariant
                o <= count,
                count == self.links@.len(),
                mask@.len() == count,
                model == self.model(),
                forall|k: int|
                    0 <= k < o ==> !(mask@[k] && (#[trigger] model.pairings[k]).state == state),
            decreases count - o,
        {
            if mask[o] && self.links[o].state() == state {
                assert(mask@[o as int] && model.pairings[o as int].state == state);
                return true;
            }
            o += 1;
        }
        false
    }

    /// Takes part in one calibration round on the outputs that `mask` selects.
    fn calibrate(
        &mut self,
        mask: &Vec<bool>,
        running: bool,
        replay: bool,
        pattern: &[i16],
        Ghost(frame_size): Ghost<usize>,
    )
        requires
            old(self).wf(frame_size),
            mask@.len() == old(self).links@.len(),
            pattern@ == calibration_pattern(),
        ensures
            final(self).wf(frame_size),
            final(self).links@.len() == old(self).links@.len(),
            final(self).model() == old(self).model().calibrated(mask@, running, replay),
    {
        let ghost before = self.model();
        let held = self.capture.len();
        let mut heard = silent_frame(held);
        if running {
            let _ = self.capture.read_into(heard.as_mut_slice());
            assert(heard@ =~= before.capture);
            assert(self.capture@ =~= Seq::<i16>::empty());
        } else {
            self.capture.clear();
        }
        let count = self.links.len();
        let mut o: usize = 0;
        while o < count
            invariant
                o <= count,
                count == self.links@.len(),
                count == old(self).links@.len(),
                mask@.len() == count,
                pattern@ == calibration_pattern(),
                running ==> heard@ == before.capture,
                self.capture.wf(),
                self.capture.spec_silence() == 0,
                self.driver == old(self).driver,
                self.config == old(self).config,
                self.capture@ == Seq::<i16>::empty(),
                self.capture.spec_capacity() == before.capacity,
                self.capture.spec_overrun_samples() == before.overruns,
                self.capture.spec_underrun_samples() == before.underruns,
                before == old(self).model(),
                forall|k: int| o <= k < count ==> self.links@[k] == old(self).links@[k],
                forall|k: int| 0 <= k < count ==> (#[trigger] self.links@[k]).wf(),
                forall|k: int|
                    0 <= k < o ==> (#[trigger] self.links@[k])@ == before.calibrated(
                        mask@,
                        running,
                        replay,
                    ).pairings[k],
            decreases count - o,
        {
            assert(self.links@[o as int]@ == before.pairings[o as int]);
            if mask[o] {
                if running {
                    let _ = self.links[o].observe(pattern, heard.as_slice());
                } else {
                    self.links[o].begin(replay);
                }
            }
            o += 1;
        }
        assert(self.model().pairings =~= before.calibrated(mask@, running, replay).pairings);
    }

    /// Runs one tick: takes a frame from the capture queue and the far-end
    /// frame from every pairing, and cancels the echo where every pairing
    /// is calibrated. Returns the near-end frame, the mixed far-end frame
    /// and the frame to hand on.
    fn tick(&mut self, frame: usize) -> (frames: (Vec<i16>, Vec<i16>, Vec<i16>))
        requires
            old(self).wf(frame),
        ensures
            final(self).wf(frame),
            final(self).links@.len() == old(self).links@.len(),
            final(self).model() == old(self).model().ticked(frame as nat),
            frames.0@ == old(self).model().near_frame(frame as nat),
            frames.1@ == old(self).model().far_frame(frame as nat),
            frames.2@.len() == frame,
            !old(self).model().cancelling() ==> frames.2@ == frames.0@,
    {
        let ghost before = self.model();
        let mut near = silent_frame(frame);
        let missing: usize = match self.capture.read_into(near.as_mut_slice()) {
            ReadResult::Filled => 0,
            ReadResult::Underrun { shortfall } => shortfall,
        };
        let count = self.links.len();
        let mut fars: Vec<Vec<i16>> = Vec::new();
        let mut cancelling = true;
        let mut o: usize = 0;
        while o < count
            invariant
                o <= count,
                count == self.links@.len(),
                count == old(self).links@.len(),
                self.capture.wf(),
                self.capture.spec_silence() == 0,
                self.driver == old(self).driver,
                self.config == old(self).config,
                self.capture@ == before.ticked(frame as nat).capture,
                self.capture.spec_capacity() == before.capacity,
                self.capture.spec_overrun_samples() == before.overruns,
                self.capture.spec_underrun_samples() == before.ticked(frame as nat).underruns,
                before == old(self).model(),
                missing == shortfall(before.capture.len(), frame as nat),
                missing <= frame,
                fars@.len() == o,
                cancelling <==> forall|k: int| 0 <= k < o ==> (#[trigger] before.pairings[k]).calibrated(),
                forall|k: int| o <= k < count ==> self.links@[k] == old(self).links@[k],
                forall|k: int| 0 <= k < count ==> (#[trigger] self.links@[k]).wf(),
                forall|k: int|
                    0 <= k < o ==> (#[trigger] self.links@[k])@ == before.pairings[k].ticked(
                        frame as nat,
                        missing as nat,
                    ),
                forall|k: int|
                    0 <= k < o ==> {
                        &&& (#[trigger] fars@[k])@ == before.pairings[k].far_frame(frame as nat)
                        &&& fars@[k]@.len() == frame
                    },
            decreases count - o,
        {
            assert(self.links@[o as int]@ == before.pairings[o as int]);
            if !self.links[o].is_calibrated() {
                cancelling = false;
            }
            let far = self.links[o].tick(frame, missing);
            fars.push(far);
            o += 1;
        }
        let far = mix(&fars, frame);
        assert(crate::driver::frame_views(fars@) =~= before.far_frames(frame as nat));
        let cancelled = if cancelling {
            self.driver.process_frame(near.as_slice(), far.as_slice())
        } else {
            copy_frame(near.as_slice())
        };
        assert(self.model().pairings =~= before.ticked(frame as nat).pairings);
        (near, far, cancelled)
    }
}

impl OutputPipeline {
    spec fn model(&self) -> OutputModel {
        OutputModel {
            config: self.config,
            playback: self.playback@,
            capacity: self.playback.spec_capacity(),
            overruns: self.playback.spec_overrun_samples(),
            underruns: self.playback.spec_underrun_samples(),
        }
    }

    spec fn wf(&self, frame_size: usize) -> bool {
        &&& self.playback.wf()
        &&& self.playback.spec_silence() == 0
        &&& self.reference_capacity > 0
        &&& self.reference_capacity == reference_capacity(self.config, frame_size)
    }
}

/// The echo-cancellation stream.
pub struct AecStream<C> {
    config: AecConfig,
    inputs: Vec<InputPipeline<C>>,
    outputs: Vec<OutputPipeline>,
    input_channels: usize,
    output_channels: usize,
}

impl<C: EchoCanceller> View for AecStream<C> {
    type V = StreamModel;

    closed spec fn view(&self) -> StreamModel {
        StreamModel {
            config: self.config,
            inputs: Seq::new(self.inputs@.len(), |i: int| self.inputs@[i].model()),
            outputs: Seq::new(self.outputs@.len(), |o: int| self.outputs@[o].model()),
        }
    }
}

impl<C: EchoCanceller> AecStream<C> {
    /// The representation invariant: a sound configuration, sound queues,
    /// one pairing of every input with every output, and channel totals
    /// that are the sums over the devices.
    pub closed spec fn wf(&self) -> bool {
        &&& self.config.wf()
        &&& self.inputs@.len() <= MAX_DEVICES
        &&& self.outputs@.len() <= MAX_DEVICES
        &&& forall|i: int|
            0 <= i < self.inputs@.len() ==> {
                &&& (#[trigger] self.inputs@[i]).wf(self.config.frame_size)
                &&& self.inputs@[i].links@.len() == self.outputs@.len()
            }
        &&& forall|o: int|
            0 <= o < self.outputs@.len() ==> (#[trigger] self.outputs@[o]).wf(
                self.config.frame_size,
            )
        &&& self.input_channels == self@.input_channels()
        &&& self.output_channels == self@.output_channels()
    }

    /// What follows from the invariant for the view.
    pub proof fn lemma_wf(&self)
        requires
            self.wf(),
        ensures
            self@.config.wf(),
            self@.inputs.len() <= MAX_DEVICES,
            self@.outputs.len() <= MAX_DEVICES,
            self@.input_channels() <= usize::MAX,
            self@.output_channels() <= usize::MAX,
            forall|i: int|
                0 <= i < self@.inputs.len() ==> (#[trigger] self@.inputs[i]).pairings.len()
                    == self@.outputs.len(),
    {
    }

    /// A stream with nothing attached, or the reason why `config` is not a
    /// configuration the engine can run with.
    pub fn new(config: AecConfig) -> (made: Result<Self, AecError>)
        ensures
            match checked_config(config.sample_rate, config.frame_size, config.filter_length) {
                Ok(c) => made matches Ok(s) && s.wf() && s@ == (StreamModel {
                    config: c,
                    inputs: Seq::empty(),
                    outputs: Seq::empty(),
                }),
                Err(e) => made matches Err(r) && r == AecError::Config(e),
            },
    {
        match AecConfig::new(config.sample_rate, config.frame_size, config.filter_length) {
            Err(e) => Err(AecError::Config(e)),
            Ok(config) => {
                let stream = AecStream {
                    config,
                    inputs: Vec::new(),
                    outputs: Vec::new(),
                    input_channels: 0,
                    output_channels: 0,
                };
                assert(stream@.inputs =~= Seq::empty());
                assert(stream@.outputs =~= Seq::empty());
                Ok(stream)
            },
        }
    }

    /// The processing configuration.
    pub fn config(&self) -> (config: AecConfig)
        ensures
            config == self@.config,
    {
        self.config
    }

    /// The number of attached inputs.
    pub fn num_inputs(&self) -> (n: usize)
        ensures
            n == self@.inputs.len(),
    {
        self.inputs.len()
    }

    /// The number of attached outputs.
    pub fn num_outputs(&self) -> (n: usize)
        ensures
            n == self@.outputs.len(),
    {
        self.outputs.len()
    }

    /// The number of input channels: the sum of the channel counts of the
    /// attached inputs.
    pub fn num_input_channels(&self) -> (n: usize)
        requires
            self.wf(),
        ensures
            n == self@.input_channels(),
    {
        self.input_channels
    }

    /// The number of output channels: the sum of the channel counts of the
    /// attached outputs.
    pub fn num_output_channels(&self) -> (n: usize)
        requires
            self.wf(),
        ensures
            n == self@.output_channels(),
    {
        self.output_channels
    }
    /// Attaches an output: checks its format, allocates its playback queue
    /// and pairs it, uncalibrated, with every attached input. Returns the
    /// handle for writing to the output; a rejected device leaves the
    /// stream as it was.
    pub fn add_output_device(&mut self, config: &OutputDeviceConfig) -> (made: Result<
        StreamAlignerProducer,
        AecError,
    >)
        requires
            old(self).wf(),
        ensures
            final(self).wf(),
            match old(self)@.output_verdict(*config) {
                Ok(_) => {
                    &&& made matches Ok(p) && p.spec_output() == old(self)@.outputs.len()
                    &&& final(self)@ == old(self)@.with_output(*config)
                },
                Err(e) => made == Err::<StreamAlignerProducer, AecError>(AecError::Config(e))
                    && final(self)@ == old(self)@,
            },
    {
        if let Err(e) = check_format(config.channels, config.sample_rate, config.sample_format) {
            return Err(AecError::Config(e));
        }
        let playback = match StreamAligner::sized_for(
            config.audio_buffer_seconds,
            config.sample_rate,
            config.channels,
            0i16,
        ) {
            Some(queue) => queue,
            None => {
                return Err(AecError::Config(ConfigError::BufferSize));
            },
        };
        let history = match config.history_len.checked_mul(self.config.frame_size) {
            Some(samples) => samples,
            None => {
                return Err(AecError::Config(ConfigError::BufferSize));
            },
        };
        if history == 0 {
            return Err(AecError::Config(ConfigError::BufferSize));
        }
        if self.outputs.len() >= MAX_DEVICES {
            return Err(AecError::Config(ConfigError::TooManyDevices));
        }
        proof {
            lemma_output_sum_bound(self@.outputs, self@.outputs.len());
        }
        let total = self.output_channels + config.channels as usize;
        let policy = CalibrationPolicy::standard(config.calibration_packets);
        let limit = self.config.filter_length as u64;
        let ghost before = self@;
        let ghost fresh = new_pairing(*config, self.config);
        let count = self.inputs.len();
        let mut i: usize = 0;
        while i < count
            invariant
                i <= count,
                count == self.inputs@.len(),
                count == old(self).inputs@.len(),
                self.config == old(self).config,
                self.outputs == old(self).outputs,
                self.input_channels == old(self).input_channels,
                self.output_channels == old(self).output_channels,
                old(self).wf(),
                before == old(self)@,
                fresh == new_pairing(*config, self.config),
                policy == CalibrationPolicy::spec_standard(config.calibration_packets),
                limit == self.config.filter_length,
                history > 0,
                history == reference_capacity(*config, self.config.frame_size),
                forall|j: int| i <= j < count ==> self.inputs@[j] == old(self).inputs@[j],
                forall|j: int|
                    0 <= j < i ==> {
                        &&& (#[trigger] self.inputs@[j]).wf(self.config.frame_size)
                        &&& self.inputs@[j].links@.len() == self.outputs@.len() + 1
                        &&& self.inputs@[j].model() == (InputModel {
                            pairings: before.inputs[j].pairings.push(fresh),
                            ..before.inputs[j]
                        })
                    },
            decreases count - i,
        {
            let ghost was = self.inputs@[i as int];
            assert(was.wf(self.config.frame_size));
            if let Some(link) = Pairing::new(policy, history, limit) {
                self.inputs[i].links.push(link);
                assert(self.inputs@[i as int].model().pairings =~= was.model().pairings.push(
                    fresh,
                ));
            }
            i += 1;
        }
        let position = self.outputs.len();
        self.outputs.push(
            OutputPipeline { config: config.clone(), playback, reference_capacity: history },
        );
        self.output_channels = total;
        proof {
            let after = self@;
            let wanted = before.with_output(*config);
            assert(after.outputs =~= wanted.outputs);
            assert(after.inputs =~= wanted.inputs);
            lemma_output_sum_extends(before.outputs, after.outputs, before.outputs.len());
            lemma_input_sum_agrees(before.inputs, after.inputs, before.inputs.len());
            assert forall|o: int| 0 <= o < self.outputs@.len() implies (#[trigger] self.outputs@[o]).wf(
                self.config.frame_size,
            ) by {
                if o < position {
                    assert(self.outputs@[o] == old(self).outputs@[o]);
                }
            }
        }
        Ok(StreamAlignerProducer { output: position })
    }

    /// Attaches an input together with the canceller that cleans its
    /// capture: checks its format, allocates its capture queue and pairs it,
    /// uncalibrated, with every attached output. Returns the position of
    /// the input among the attached inputs; a rejected device leaves the
    /// stream as it was.
    pub fn add_input_device(&mut self, config: &InputDeviceConfig, canceller: C) -> (made: Result<
        usize,
        AecError,
    >)
        requires
            old(self).wf(),
        ensures
            final(self).wf(),
            match old(self)@.input_verdict(*config) {
                Ok(_) => {
                    &&& made == Ok::<usize, AecError>(old(self)@.inputs.len() as usize)
                    &&& final(self)@ == old(self)@.with_input(*config)
                },
                Err(e) => made == Err::<usize, AecError>(AecError::Config(e)) && final(self)@
                    == old(self)@,
            },
    {
        if let Err(e) = check_format(config.channels, config.sample_rate, config.sample_format) {
            return Err(AecError::Config(e));
        }
        let capture = match StreamAligner::sized_for(
            config.audio_buffer_seconds,
            config.sample_rate,
            config.channels,
            0i16,
        ) {
            Some(queue) => queue,
            None => {
                return Err(AecError::Config(ConfigError::BufferSize));
            },
        };
        if self.inputs.len() >= MAX_DEVICES {
            return Err(AecError::Config(ConfigError::TooManyDevices));
        }
        proof {
            lemma_input_sum_bound(self@.inputs, self@.inputs.len());
        }
        let total = self.input_channels + config.channels as usize;
        let limit = self.config.filter_length as u64;
        let ghost before = self@;
        let count = self.outputs.len();
        let mut links: Vec<Pairing> = Vec::new();
        let mut o: usize = 0;
        while o < count
            invariant
                o <= count,
                count == self.outputs@.len(),
                self.wf(),
                before == self@,
                limit == self.config.filter_length,
                links@.len() == o,
                forall|k: int|
                    0 <= k < o ==> (#[trigger] links@[k]).wf() && links@[k]@ == new_pairing(
                        before.outputs[k].config,
                        before.config,
                    ),
            decreases count - o,
        {
            assert(self.outputs@[o as int].wf(self.config.frame_size));
            let policy = CalibrationPolicy::standard(self.outputs[o].config.calibration_packets);
            if let Some(link) = Pairing::new(policy, self.outputs[o].reference_capacity, limit) {
                links.push(link);
            }
            o += 1;
        }
        let position = self.inputs.len();
        let driver = EchoDriver::new(canceller, self.config.frame_size);
        self.inputs.push(InputPipeline { config: config.clone(), capture, driver, links });
        self.input_channels = total;
        proof {
            let after = self@;
            let wanted = before.with_input(*config);
            assert forall|i: int| 0 <= i < self.inputs@.len() implies {
                &&& (#[trigger] self.inputs@[i]).wf(self.config.frame_size)
                &&& self.inputs@[i].links@.len() == self.outputs@.len()
            } by {
                if i < position {
                    assert(self.inputs@[i] == old(self).inputs@[i]);
                }
            }
            assert(after.inputs[position as int].pairings =~= wanted.inputs[position as int].pairings);
            assert(after.inputs =~= wanted.inputs);
            assert(after.outputs =~= wanted.outputs);
            lemma_input_sum_extends(before.inputs, after.inputs, before.inputs.len());
        }
        Ok(position)
    }

    /// Where the pairing of output `output` with input `input` stands, or
    /// `None` where there is no such pairing.
    pub fn pairing_state(&self, output: usize, input: usize) -> (state: Option<PairingState>)
        requires
            self.wf(),
        ensures
            state == if input < self@.inputs.len() && output < self@.outputs.len() {
                Some(self@.inputs[input as int].pairings[output as int].state)
            } else {
                None
            },
    {
        if input < self.inputs.len() && output < self.outputs.len() {
            assert(self.inputs@[input as int].wf(self.config.frame_size));
            Some(self.inputs[input].links[output].state())
        } else {
            None
        }
    }

    /// What is known of the delay between output `output` and input
    /// `input`, or `None` where there is no such pairing.
    pub fn calibration_state(&self, output: usize, input: usize) -> (state: Option<
        CalibrationState,
    >)
        requires
            self.wf(),
        ensures
            state == if input < self@.inputs.len() && output < self@.outputs.len() {
                Some(self@.inputs[input as int].pairings[output as int].calibrator.state)
            } else {
                None
            },
    {
        if input < self.inputs.len() && output < self.outputs.len() {
            assert(self.inputs@[input as int].wf(self.config.frame_size));
            Some(self.inputs[input].links[output].calibration())
        } else {
            None
        }
    }

    /// Writes far-end samples to the output behind `producer`: they are
    /// queued for playback and recorded as reference by every calibrated
    /// pairing of the output. Never waits: what does not fit displaces the
    /// oldest samples, and the report says how many.
    pub fn write(&mut self, producer: &StreamAlignerProducer, samples: &[i16]) -> (report: Result<
        WriteResult,
        AecError,
    >)
        requires
            old(self).wf(),
        ensures
            final(self).wf(),
            producer.spec_output() >= old(self)@.outputs.len() ==> report == Err::<
                WriteResult,
                AecError,
            >(AecError::UnknownDevice) && final(self)@ == old(self)@,
            producer.spec_output() < old(self)@.outputs.len() ==> {
                let output = old(self)@.outputs[producer.spec_output() as int];
                &&& final(self)@ == old(self)@.written(producer.spec_output() as int, samples@)
                &&& report == Ok::<WriteResult, AecError>(
                    write_report(discarded(output.playback.len(), samples@.len(), output.capacity)),
                )
            },
    {
        let output = producer.output;
        if output >= self.outputs.len() {
            return Err(AecError::UnknownDevice);
        }
        let ghost before = self@;
        assert(self.outputs@[output as int].wf(self.config.frame_size));
        let report = self.outputs[output].playback.write(samples);
        let count = self.inputs.len();
        let mut i: usize = 0;
        while i < count
            invariant
                i <= count,
                count == self.inputs@.len(),
                count == old(self).inputs@.len(),
                output < self.outputs@.len(),
                self.outputs@.len() == old(self).outputs@.len(),
                self.config == old(self).config,
                self.config.wf(),
                self.input_channels == old(self).input_channels,
                self.output_channels == old(self).output_channels,
                before == old(self)@,
                self@.outputs == before.written(output as int, samples@).outputs,
                forall|o: int|
                    0 <= o < self.outputs@.len() ==> (#[trigger] self.outputs@[o]).wf(
                        self.config.frame_size,
                    ),
                forall|j: int|
                    0 <= j < count ==> {
                        &&& (#[trigger] self.inputs@[j]).wf(self.config.frame_size)
                        &&& self.inputs@[j].links@.len() == self.outputs@.len()
                    },
                forall|j: int|
                    i <= j < count ==> (#[trigger] self.inputs@[j]).model() == before.inputs[j],
                forall|j: int|
                    0 <= j < i ==> (#[trigger] self.inputs@[j]).model() == before.inputs[j].heard(
                        output as int,
                        samples@,
                    ),
            decreases count - i,
        {
            self.inputs[i].hear(output, samples, Ghost(self.config.frame_size));
            i += 1;
        }
        proof {
            let after = self@;
            let wanted = before.written(output as int, samples@);
            assert(after.inputs =~= wanted.inputs);
            lemma_input_sum_agrees(before.inputs, after.inputs, before.inputs.len());
            lemma_output_sum_extends(before.outputs, after.outputs, before.outputs.len());
        }
        Ok(report)
    }

    /// Fills `out` for the device of output `output` from its playback
    /// queue, padding with silence what the queue cannot supply. Never
    /// waits; the report says how many samples were missing.
    pub fn read_into(&mut self, output: usize, out: &mut [i16]) -> (report: Result<
        ReadResult,
        AecError,
    >)
        requires
            old(self).wf(),
        ensures
            final(self).wf(),
            final(out)@.len() == old(out)@.len(),
            output >= old(self)@.outputs.len() ==> report == Err::<ReadResult, AecError>(
                AecError::UnknownDevice,
            ) && final(self)@ == old(self)@ && final(out)@ == old(out)@,
            output < old(self)@.outputs.len() ==> {
                let queue = old(self)@.outputs[output as int].playback;
                &&& final(self)@ == old(self)@.pulled(output as int, old(out)@.len())
                &&& final(out)@ == delivered(queue, old(out)@.len(), 0i16)
                &&& report == Ok::<ReadResult, AecError>(
                    read_report(shortfall(queue.len(), old(out)@.len())),
                )
            },
    {
        if output >= self.outputs.len() {
            return Err(AecError::UnknownDevice);
        }
        let ghost before = self@;
        assert(self.outputs@[output as int].wf(self.config.frame_size));
        let report = self.outputs[output].playback.read_into(out);
        proof {
            let after = self@;
            let wanted = before.pulled(output as int, old(out)@.len());
            assert(after.outputs =~= wanted.outputs);
            assert(after.inputs =~= wanted.inputs);
            lemma_input_sum_agrees(before.inputs, after.inputs, before.inputs.len());
            lemma_output_sum_extends(before.outputs, after.outputs, before.outputs.len());
        }
        Ok(report)
    }

    /// Takes in samples captured by the device of input `input`. Never
    /// waits: what does not fit displaces the oldest samples, and the report
    /// says how many.
    pub fn push_input(&mut self, input: usize, samples: &[i16]) -> (report: Result<
        WriteResult,
        AecError,
    >)
        requires
            old(self).wf(),
        ensures
            final(self).wf(),
            input >= old(self)@.inputs.len() ==> report == Err::<WriteResult, AecError>(
                AecError::UnknownDevice,
            ) && final(self)@ == old(self)@,
            input < old(self)@.inputs.len() ==> {
                let device = old(self)@.inputs[input as int];
                &&& final(self)@ == old(self)@.captured(input as int, samples@)
                &&& report == Ok::<WriteResult, AecError>(
                    write_report(discarded(device.capture.len(), samples@.len(), device.capacity)),
                )
            },
    {
        if input >= self.inputs.len() {
            return Err(AecError::UnknownDevice);
        }
        let ghost before = self@;
        assert(self.inputs@[input as int].wf(self.config.frame_size));
        let report = self.inputs[input].capture(samples, Ghost(self.config.frame_size));
        proof {
            let after = self@;
            let wanted = before.captured(input as int, samples@);
            assert(after.outputs =~= wanted.outputs);
            assert(after.inputs =~= wanted.inputs);
            lemma_input_sum_agrees(before.inputs, after.inputs, before.inputs.len());
            lemma_output_sum_extends(before.outputs, after.outputs, before.outputs.len());
        }
        Ok(report)
    }

    /// Runs one tick over every input.
    fn tick_all(&mut self) -> (frames: (Vec<Vec<i16>>, Vec<Vec<i16>>, Vec<Vec<i16>>))
        requires
            old(self).wf(),
        ensures
            final(self).wf(),
            final(self)@ == old(self)@.ticked(),
            frames_taken(old(self)@, frames.0@, frames.1@),
            frames_handed_on(old(self)@, frames.2@),
    {
        let ghost before = self@;
        let frame = self.config.frame_size;
        let mut nears: Vec<Vec<i16>> = Vec::new();
        let mut fars: Vec<Vec<i16>> = Vec::new();
        let mut cleaned: Vec<Vec<i16>> = Vec::new();
        let count = self.inputs.len();
        let mut i: usize = 0;
        while i < count
            invariant
                i <= count,
                count == self.inputs@.len(),
                count == old(self).inputs@.len(),
                self.outputs == old(self).outputs,
                self.config == old(self).config,
                frame == self.config.frame_size,
                self.input_channels == old(self).input_channels,
                self.output_channels == old(self).output_channels,
                old(self).wf(),
                before == old(self)@,
                nears@.len() == i,
                fars@.len() == i,
                cleaned@.len() == i,
                forall|j: int|
                    0 <= j < count ==> {
                        &&& (#[trigger] self.inputs@[j]).wf(self.config.frame_size)
                        &&& self.inputs@[j].links@.len() == self.outputs@.len()
                    },
                forall|j: int|
                    i <= j < count ==> (#[trigger] self.inputs@[j]).model() == before.inputs[j],
                forall|j: int|
                    0 <= j < i ==> (#[trigger] self.inputs@[j]).model() == before.inputs[j].ticked(
                        frame as nat,
                    ),
                forall|j: int|
                    0 <= j < i ==> (#[trigger] nears@[j])@ == before.inputs[j].near_frame(
                        frame as nat,
                    ),
                forall|j: int|
                    0 <= j < i ==> (#[trigger] fars@[j])@ == before.inputs[j].far_frame(
                        frame as nat,
                    ),
                forall|j: int|
                    0 <= j < i ==> {
                        &&& (#[trigger] cleaned@[j])@.len() == frame
                        &&& !before.inputs[j].cancelling() ==> cleaned@[j]@
                            == before.inputs[j].near_frame(frame as nat)
                    },
            decreases count - i,
        {
            let (near, far, cancelled) = self.inputs[i].tick(frame);
            nears.push(near);
            fars.push(far);
            cleaned.push(cancelled);
            i += 1;
        }
        proof {
            let after = self@;
            assert(after.inputs =~= before.ticked().inputs);
            assert(after.outputs =~= before.outputs);
            lemma_input_sum_agrees(before.inputs, after.inputs, before.inputs.len());
        }
        (nears, fars, cleaned)
    }

    /// Advances the stream by one processing tick and returns, for every
    /// input in the order of attachment, the frame to hand on.
    ///
    /// Every input gives up one frame of captured samples, padded with
    /// silence where too few have arrived, and every calibrated pairing the
    /// far-end frame that belongs to it. An input whose pairings are all
    /// calibrated has its frame cleaned by its canceller; any other input
    /// has its frame handed on exactly as captured. With no device attached
    /// nothing happens and the tick is refused.
    pub fn update(&mut self) -> (frames: Result<Vec<Vec<i16>>, AecError>)
        requires
            old(self).wf(),
        ensures
            final(self).wf(),
            old(self)@.inputs.len() + old(self)@.outputs.len() == 0 ==> {
                &&& frames matches Err(e) && e == AecError::NoDevices
                &&& final(self)@ == old(self)@
            },
            old(self)@.inputs.len() + old(self)@.outputs.len() > 0 ==> {
                &&& frames matches Ok(cancelled) && frames_handed_on(old(self)@, cancelled@)
                &&& final(self)@ == old(self)@.ticked()
            },
    {
        if self.inputs.len() == 0 && self.outputs.len() == 0 {
            return Err(AecError::NoDevices);
        }
        let (_, _, cancelled) = self.tick_all();
        Ok(cancelled)
    }

    /// Advances the stream by one processing tick, exactly as `update`
    /// does, and returns what the tick took in and handed on together with
    /// the channel counts. The frame is stamped with `start_micros` as the
    /// start and the end of the tick; `DebugFrame::close` sets the end.
    pub fn update_debug(&mut self, start_micros: u64) -> (frames: Result<DebugFrame, AecError>)
        requires
            old(self).wf(),
        ensures
            final(self).wf(),
            old(self)@.inputs.len() + old(self)@.outputs.len() == 0 ==> {
                &&& frames is Err && frames->Err_0 == AecError::NoDevices
                &&& final(self)@ == old(self)@
            },
            old(self)@.inputs.len() + old(self)@.outputs.len() > 0 ==> {
                &&& frames matches Ok(debug) && {
                    &&& frames_taken(old(self)@, debug.near@, debug.far@)
                    &&& frames_handed_on(old(self)@, debug.cancelled@)
                    &&& debug.input_channels == old(self)@.input_channels()
                    &&& debug.output_channels == old(self)@.output_channels()
                    &&& debug.start_micros == start_micros
                    &&& debug.end_micros == start_micros
                }
                &&& final(self)@ == old(self)@.ticked()
            },
    {
        if self.inputs.len() == 0 && self.outputs.len() == 0 {
            return Err(AecError::NoDevices);
        }
        let input_channels = self.input_channels;
        let output_channels = self.output_channels;
        let (near, far, cancelled) = self.tick_all();
        Ok(
            DebugFrame {
                near,
                far,
                cancelled,
                input_channels,
                output_channels,
                start_micros,
                end_micros: start_micros,
            },
        )
    }

    /// Whether a pairing with one of the outputs that `mask` selects is in `state`.
    fn any_pairing(&self, mask: &Vec<bool>, state: PairingState) -> (yes: bool)
        requires
            self.wf(),
            mask@.len() == self@.outputs.len(),
        ensures
            yes == self@.has(mask@, state),
    {
        let ghost model = self@;
        let count = self.inputs.len();
        let mut i: usize = 0;
        while i < count
            invariant
                i <= count,
                count == self.inputs@.len(),
                self.wf(),
                mask@.len() == self.outputs@.len(),
                model == self@,
                forall|j: int| 0 <= j < i ==> !(#[trigger] model.inputs[j]).has(mask@, state),
            decreases count - i,
        {
            assert(self.inputs@[i as int].wf(self.config.frame_size));
            if self.inputs[i].has_state(mask, state, Ghost(self.config.frame_size)) {
                assert(model.inputs[i as int].has(mask@, state));
                return true;
            }
            i += 1;
        }
        false
    }

    /// Whether a pairing of output `output` is calibrating.
    fn is_listening(&self, output: usize) -> (yes: bool)
        requires
            self.wf(),
            output < self@.outputs.len(),
        ensures
            yes == self@.listening(output as int),
    {
        let ghost model = self@;
        let count = self.inputs.len();
        let mut i: usize = 0;
        while i < count
            invariant
                i <= count,
                count == self.inputs@.len(),
                self.wf(),
                output < self.outputs@.len(),
                model == self@,
                forall|j: int|
                    0 <= j < i ==> (#[trigger] model.inputs[j]).pairings[output as int].state
                        != PairingState::Calibrating,
            decreases count - i,
        {
            assert(self.inputs@[i as int].wf(self.config.frame_size));
            if self.inputs[i].links[output].state() == PairingState::Calibrating {
                assert(model.inputs[i as int].pairings[output as int].state
                    == PairingState::Calibrating);
                return true;
            }
            i += 1;
        }
        false
    }

    /// Runs one round of calibration on the outputs behind `producers`.
    ///
    /// While none of their pairings is calibrating, the round starts a pass:
    /// every uncalibrated pairing begins to calibrate, and with `replay` so
    /// does every calibrated one. While a pass is running, every
    /// calibrating pairing searches what its input captured since the last
    /// round for the calibration pattern and refines its delay estimate.
    /// Either way the capture queues are emptied, and the pattern is then
    /// played once more on every output that still has a calibrating
    /// pairing. The caller lets the devices run and calls again for as long
    /// as the result is `Pending`.
    ///
    /// The round is refused, and nothing changes, when no input or no output
    /// is attached or when a producer names an output that is not attached.
    pub fn calibrate(&mut self, producers: &[StreamAlignerProducer], replay: bool) -> (status:
        Result<CalibrationStatus, AecError>)
        requires
            old(self).wf(),
        ensures
            final(self).wf(),
            match old(self)@.round_verdict(producers@) {
                Err(e) => status == Err::<CalibrationStatus, AecError>(e) && final(self)@ == old(
                    self,
                )@,
                Ok(_) => {
                    let mask = mask_of(producers@, old(self)@.outputs.len());
                    &&& final(self)@ == old(self)@.calibrated(mask, replay)
                    &&& status == Ok::<CalibrationStatus, AecError>(final(self)@.standing(mask))
                },
            },
    {
        let outputs = self.outputs.len();
        if self.inputs.len() == 0 || outputs == 0 {
            return Err(AecError::NoDevices);
        }
        let mut mask: Vec<bool> = Vec::new();
        let mut o: usize = 0;
        while o < outputs
            invariant
                o <= outputs,
                mask@.len() == o,
                forall|k: int| 0 <= k < o ==> !mask@[k],
            decreases outputs - o,
        {
            mask.push(false);
            o += 1;
        }
        let mut k: usize = 0;
        while k < producers.len()
            invariant
                k <= producers@.len(),
                mask@.len() == outputs,
                *self == *old(self),
                self.wf(),
                outputs == self@.outputs.len(),
                self@.inputs.len() > 0,
                outputs > 0,
                forall|j: int| 0 <= j < k ==> (#[trigger] producers@[j]).spec_output() < outputs,
                forall|o: int|
                    0 <= o < outputs ==> (mask@[o] <==> exists|j: int|
                        0 <= j < k && (#[trigger] producers@[j]).spec_output() == o),
            decreases producers@.len() - k,
        {
            let named = producers[k].output;
            if named >= outputs {
                assert(!(producers@[k as int].spec_output() < outputs));
                return Err(AecError::UnknownDevice);
            }
            let ghost earlier = mask@;
            mask[named] = true;
            assert forall|o: int| 0 <= o < outputs implies (mask@[o] <==> exists|j: int|
                0 <= j < k + 1 && (#[trigger] producers@[j]).spec_output() == o) by {
                if o == named {
                    assert(producers@[k as int].spec_output() == o);
                } else if mask@[o] {
                    assert(earlier[o]);
                    let j = choose|j: int|
                        0 <= j < k && (#[trigger] producers@[j]).spec_output() == o;
                    assert(0 <= j < k + 1 && producers@[j].spec_output() == o);
                } else {
                    assert(!earlier[o]);
                }
            }
            k += 1;
        }
        assert(mask@ =~= mask_of(producers@, outputs as nat));
        let ghost before = self@;
        let running = self.any_pairing(&mask, PairingState::Calibrating);
        let pattern = make_pattern();
        let count = self.inputs.len();
        let mut i: usize = 0;
        while i < count
            invariant
                i <= count,
                count == self.inputs@.len(),
                count == old(self).inputs@.len(),
                self.outputs == old(self).outputs,
                self.config == old(self).config,
                self.input_channels == old(self).input_channels,
                self.output_channels == old(self).output_channels,
                old(self).wf(),
                before == old(self)@,
                mask@.len() == self.outputs@.len(),
                pattern@ == calibration_pattern(),
                forall|j: int|
                    0 <= j < count ==> {
                        &&& (#[trigger] self.inputs@[j]).wf(self.config.frame_size)
                        &&& self.inputs@[j].links@.len() == self.outputs@.len()
                    },
                forall|j: int|
                    i <= j < count ==> (#[trigger] self.inputs@[j]).model() == before.inputs[j],
                forall|j: int|
                    0 <= j < i ==> (#[trigger] self.inputs@[j]).model()
                        == before.inputs[j].calibrated(mask@, running, replay),
            decreases count - i,
        {
            self.inputs[i].calibrate(
                &mask,
                running,
                replay,
                pattern.as_slice(),
                Ghost(self.config.frame_size),
            );
            i += 1;
        }
        proof {
            let after = self@;
            let wanted = before.observed(mask@, replay);
            assert(after.inputs =~= wanted.inputs);
            assert(after.outputs =~= wanted.outputs);
            lemma_input_sum_agrees(before.inputs, after.inputs, before.inputs.len());
        }
        let ghost heard = self@;
        let mut o: usize = 0;
        while o < outputs
            invariant
                o <= outputs,
                outputs == self.outputs@.len(),
                outputs == old(self).outputs@.len(),
                outputs <= MAX_DEVICES,
                self.inputs@.len() == old(self).inputs@.len(),
                self.inputs@.len() <= MAX_DEVICES,
                self.config == old(self).config,
                self.config.wf(),
                self.input_channels == old(self).input_channels,
                self.output_channels == old(self).output_channels,
                self.input_channels == heard.input_channels(),
                self.output_channels == heard.output_channels(),
                heard.inputs == self@.inputs,
                heard.config == self.config,
                heard.outputs.len() == outputs,
                mask@.len() == outputs,
                pattern@ == calibration_pattern(),
                forall|j: int|
                    0 <= j < self.inputs@.len() ==> {
                        &&& (#[trigger] self.inputs@[j]).wf(self.config.frame_size)
                        &&& self.inputs@[j].links@.len() == self.outputs@.len()
                    },
                forall|j: int|
                    0 <= j < outputs ==> (#[trigger] self.outputs@[j]).wf(self.config.frame_size),
                forall|j: int|
                    o <= j < outputs ==> (#[trigger] self.outputs@[j]).model() == heard.outputs[j],
                forall|j: int|
                    0 <= j < o ==> (#[trigger] self.outputs@[j]).model() == heard.played(
                        mask@,
                    ).outputs[j],
            decreases outputs - o,
        {
            proof {
                let now = self@;
                assert(now.inputs == heard.inputs);
                assert forall|j: int| 0 <= j < heard.outputs.len() implies heard.outputs[j].config
                    == now.outputs[j].config by {
                    assert(now.outputs[j] == self.outputs@[j].model());
                }
                lemma_output_sum_extends(heard.outputs, now.outputs, heard.outputs.len());
                assert(now.listening(o as int) == heard.listening(o as int));
            }
            if mask[o] && self.is_listening(o) {
                let _ = self.outputs[o].playback.write(pattern.as_slice());
            }
            o += 1;
        }
        proof {
            let after = self@;
            let wanted = heard.played(mask@);
            assert(after.outputs =~= wanted.outputs);
            assert(after.inputs =~= wanted.inputs);
            lemma_output_sum_extends(heard.outputs, after.outputs, heard.outputs.len());
        }
        let status = if self.any_pairing(&mask, PairingState::Calibrating) {
            CalibrationStatus::Pending
        } else if self.any_pairing(&mask, PairingState::Uncalibrated) {
            CalibrationStatus::Failed
        } else {
            CalibrationStatus::Calibrated
        };
        Ok(status)
    }
}

/// The channel sum of the first `count` outputs does not depend on what follows them.
proof fn lemma_output_sum_extends(shorter: Seq<OutputModel>, longer: Seq<OutputModel>, count: nat)
    requires
        count <= shorter.len() <= longer.len(),
        forall|o: int| 0 <= o < shorter.len() ==> shorter[o].config == longer[o].config,
    ensures
        output_channel_sum(shorter, count) == output_channel_sum(longer, count),
    decreases count,
{
    if count > 0 {
        lemma_output_sum_extends(shorter, longer, (count - 1) as nat);
    }
}

/// The channel sum of the first `count` inputs does not depend on what follows them.
proof fn lemma_input_sum_extends(shorter: Seq<InputModel>, longer: Seq<InputModel>, count: nat)
    requires
        count <= shorter.len() <= longer.len(),
        forall|i: int| 0 <= i < shorter.len() ==> shorter[i].config == longer[i].config,
    ensures
        input_channel_sum(shorter, count) == input_channel_sum(longer, count),
    decreases count,
{
    if count > 0 {
        lemma_input_sum_extends(shorter, longer, (count - 1) as nat);
    }
}

/// The channel sum of `count` outputs is at most `count` times the most
/// channels a device can have.
proof fn lemma_output_sum_bound(outputs: Seq<OutputModel>, count: nat)
    ensures
        output_channel_sum(outputs, count) <= count * u16::MAX,
    decreases count,
{
    if count > 0 {
        lemma_output_sum_bound(outputs, (count - 1) as nat);
    }
}

/// The channel sum of `count` inputs is at most `count` times the most
/// channels a device can have.
proof fn lemma_input_sum_bound(inputs: Seq<InputModel>, count: nat)
    ensures
        input_channel_sum(inputs, count) <= count * u16::MAX,
    decreases count,
{
    if count > 0 {
        lemma_input_sum_bound(inputs, (count - 1) as nat);
    }
}

/// The channel sum of inputs depends on their formats only.
proof fn lemma_input_sum_agrees(one: Seq<InputModel>, other: Seq<InputModel>, count: nat)
    requires
        count <= one.len() == other.len(),
        forall|i: int| 0 <= i < one.len() ==> one[i].config == other[i].config,
    ensures
        input_channel_sum(one, count) == input_channel_sum(other, count),
    decreases count,
{
    lemma_input_sum_extends(one, other, count);
}

} // verus!
