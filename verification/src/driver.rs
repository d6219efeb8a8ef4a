//! The echo-cancellation driver: hands one near-end and one far-end frame
//! at a time to the adaptive canceller and makes sure that what comes back
//! is a frame.

use vstd::prelude::*;
use crate::aligner::counted;

verus! {

/// An adaptive echo canceller. It keeps filter state from call to call, so
/// its frames must arrive in the order in which they were captured.
///
/// Nothing is assumed of an implementation: the driver checks what it
/// returns.
pub trait EchoCanceller {
    /// Removes from `near` the echo of `far`, both one frame long, and
    /// returns the cleaned frame.
    fn cancel(&mut self, near: &[i16], far: &[i16]) -> Vec<i16>;
}

/// The frame that is handed on when the canceller returned `raw` for the
/// near-end frame `near`: `raw` if it is a frame of the same length, else
/// `near` untouched.
pub open spec fn settled_frame(near: Seq<i16>, raw: Seq<i16>) -> Seq<i16> {
    if raw.len() == near.len() {
        raw
    } else {
        near
    }
}

/// A sample sum held to the range of a sample.
pub open spec fn clamped(sum: int) -> i16 {
    if sum > i16::MAX {
        i16::MAX
    } else if sum < i16::MIN {
        i16::MIN
    } else {
        sum as i16
    }
}

/// The sample of `frame` at position `at`; silence where the frame has ended.
pub open spec fn sample_at(frame: Seq<i16>, at: int) -> i16 {
    if 0 <= at < frame.len() {
        frame[at]
    } else {
        0i16
    }
}

/// The sum of the samples at position `at` of the first `count` frames.
pub open spec fn column_sum(frames: Seq<Seq<i16>>, at: int, count: nat) -> int
    decreases count,
{
    if count == 0 {
        0
    } else {
        column_sum(frames, at, (count - 1) as nat) + sample_at(frames[count - 1], at)
    }
}

/// The mix of `frames` over `len` samples: at every position the sum of the
/// frames' samples, held to the range of a sample. A frame that ends early
/// is silent from there on, and the mix of no frames is silence.
pub open spec fn mixed(frames: Seq<Seq<i16>>, len: nat) -> Seq<i16> {
    Seq::new(len, |at: int| clamped(column_sum(frames, at, frames.len())))
}

/// The views of `frames`, in order.
pub open spec fn frame_views(frames: Seq<Vec<i16>>) -> Seq<Seq<i16>> {
    Seq::new(frames.len(), |k: int| frames[k]@)
}

/// The mix of a single frame is that frame.
pub proof fn lemma_mix_of_one(frame: Seq<i16>)
    ensures
        mixed(seq![frame], frame.len()) == frame,
{
    let frames = seq![frame];
    assert forall|at: int| 0 <= at < frame.len() implies clamped(
        column_sum(frames, at, frames.len()),
    ) == frame[at] by {
        assert(column_sum(frames, at, 1) == column_sum(frames, at, 0) + sample_at(frames[0], at));
    }
    assert(mixed(frames, frame.len()) =~= frame);
}

/// A copy of `frame`.
pub fn copy_frame(frame: &[i16]) -> (copy: Vec<i16>)
    ensures
        copy@ == frame@,
{
    let mut copy: Vec<i16> = Vec::new();
    let mut i: usize = 0;
    while i < frame.len()
        invariant
            i <= frame@.len(),
            copy@ == frame@.take(i as int),
        decreases frame@.len() - i,
    {
        copy.push(frame[i]);
        assert(frame@.take(i + 1) =~= frame@.take(i as int).push(frame@[i as int]));
        i += 1;
    }
    assert(frame@.take(frame@.len() as int) =~= frame@);
    copy
}

/// A frame of `len` samples of silence.
pub fn silent_frame(len: usize) -> (frame: Vec<i16>)
    ensures
        frame@ == Seq::new(len as nat, |i: int| 0i16),
{
    let mut frame: Vec<i16> = Vec::new();
    let mut i: usize = 0;
    while i < len
        invariant
            i <= len,
            frame@.len() == i,
            forall|j: int| 0 <= j < i ==> frame@[j] == 0,
        decreases len - i,
    {
        frame.push(0);
        i += 1;
    }
    assert(frame@ =~= Seq::new(len as nat, |i: int| 0i16));
    frame
}

/// Decides what to hand on after the canceller returned `raw` for `near`:
/// `raw` where it is as long as `near`, else a copy of `near`.
pub fn settle_frame(near: &[i16], raw: Vec<i16>) -> (frame: Vec<i16>)
    ensures
        frame@ == settled_frame(near@, raw@),
        frame@.len() == near@.len(),
{
    if raw.len() == near.len() {
        raw
    } else {
        copy_frame(near)
    }
}

/// Mixes the far-end frames of several outputs into one frame of `len`
/// samples.
pub fn mix(frames: &Vec<Vec<i16>>, len: usize) -> (frame: Vec<i16>)
    ensures
        frame@ == mixed(frame_views(frames@), len as nat),
{
    let ghost views = frame_views(frames@);
    let count = frames.len();
    let mut frame: Vec<i16> = Vec::new();
    let mut at: usize = 0;
    while at < len
        invariant
            at <= len,
            count == frames@.len(),
            views == frame_views(frames@),
            frame@.len() == at,
            forall|j: int| 0 <= j < at ==> frame@[j] == clamped(column_sum(views, j, count as nat)),
        decreases len - at,
    {
        let mut sum: i128 = 0;
        let mut k: usize = 0;
        while k < count
            invariant
                at < len,
                k <= count,
                count == frames@.len(),
                views == frame_views(frames@),
                sum == column_sum(views, at as int, k as nat),
                -(k * 0x8000) <= sum <= k * 0x8000,
            decreases count - k,
        {
            assert(views[k as int] == frames@[k as int]@);
            if at < frames[k].len() {
                sum = sum + frames[k][at] as i128;
            }
            k += 1;
        }
        let sample: i16 = if sum > i16::MAX as i128 {
            i16::MAX
        } else if sum < i16::MIN as i128 {
            i16::MIN
        } else {
            sum as i16
        };
        frame.push(sample);
        at += 1;
    }
    assert(frame@ =~= mixed(views, len as nat));
    frame
}

/// The driver of one canceller.
pub struct EchoDriver<C> {
    canceller: C,
    frame_size: usize,
    frames: u64,
}

impl<C: EchoCanceller> EchoDriver<C> {
    /// The number of samples in a frame.
    pub closed spec fn spec_frame_size(&self) -> nat {
        self.frame_size as nat
    }

    /// The number of frames handed to the canceller so far.
    pub closed spec fn spec_frames_processed(&self) -> u64 {
        self.frames
    }

    /// A driver for `canceller` and frames of `frame_size` samples.
    pub fn new(canceller: C, frame_size: usize) -> (driver: Self)
        ensures
            driver.spec_frame_size() == frame_size,
            driver.spec_frames_processed() == 0,
    {
        EchoDriver { canceller, frame_size, frames: 0 }
    }

    /// The number of samples in a frame.
    pub fn frame_size(&self) -> (n: usize)
        ensures
            n == self.spec_frame_size(),
    {
        self.frame_size
    }

    /// The number of frames handed to the canceller so far.
    pub fn frames_processed(&self) -> (n: u64)
        ensures
            n == self.spec_frames_processed(),
    {
        self.frames
    }

    /// Runs the canceller on one near-end and one far-end frame, both
    /// exactly one frame long, and returns the cleaned frame. Whatever the
    /// frames hold and whatever the canceller returns, the result is exactly
    /// one frame long: where the canceller returns anything else, the
    /// near-end frame is handed on untouched.
    pub fn process_frame(&mut self, near: &[i16], far: &[i16]) -> (cancelled: Vec<i16>)
        requires
            near@.len() == old(self).spec_frame_size(),
            far@.len() == old(self).spec_frame_size(),
        ensures
            cancelled@.len() == old(self).spec_frame_size(),
            final(self).spec_frame_size() == old(self).spec_frame_size(),
            final(self).spec_frames_processed() == counted(old(self).spec_frames_processed(), 1),
    {
        let raw = self.canceller.cancel(near, far);
        self.frames = self.frames.saturating_add(1);
        settle_frame(near, raw)
    }
}

} // verus!
