//! A real-time audio alignment and echo-cancellation engine.
//!
//! Audio that is played on an output leaks into what an input captures.
//! The engine buffers both sides without ever blocking them, measures the
//! delay between what was played and what came back, and hands aligned
//! frames of both to an adaptive canceller that removes the echo.
//!
//! - [`aligner`] holds the queue between a writer and a reader that run on
//!   clocks of their own.
//! - [`signal`], [`detect`], [`pattern`] and [`calibrate`] find the delay
//!   of a pairing from the calibration signal.
//! - [`driver`] drives the canceller frame by frame; [`pairing`] keeps the
//!   far-end reference of one output aligned with one input.
//! - [`stream`] owns the devices and runs calibration rounds and ticks.
//! - [`config`], [`devices`], [`channels`], [`resample`] and [`payload`]
//!   describe devices and bring their audio into the engine's form.

pub mod aligner;
pub mod calibrate;
pub mod channels;
pub mod config;
pub mod detect;
pub mod devices;
pub mod driver;
pub mod pairing;
pub mod pattern;
pub mod payload;
pub mod resample;
pub mod signal;
pub mod stream;
