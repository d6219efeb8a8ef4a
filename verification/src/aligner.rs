//! The stream aligner: a fixed-capacity sample queue between a writer that
//! produces audio whenever it has some and a reader that pulls exactly one
//! buffer per callback.
//!
//! Neither side ever waits. A write that does not fit discards the oldest
//! samples; a read that finds too little pads with silence. Both events are
//! counted and reported, never raised as errors.

use vstd::prelude::*;

verus! {

/// What a write reports.
#[derive(Clone, Copy, Debug, PartialEq, Eq, Structural)]
pub enum WriteResult {
    /// Every sample was stored and nothing was discarded.
    Written,
    /// The queue overflowed: `dropped` of the oldest samples were discarded.
    Overrun { dropped: usize },
}

/// What a read reports.
#[derive(Clone, Copy, Debug, PartialEq, Eq, Structural)]
pub enum ReadResult {
    /// The whole output buffer was filled from the queue.
    Filled,
    /// The queue ran dry: the last `shortfall` samples of the output are silence.
    Underrun { shortfall: usize },
}

/// The contents of a queue of `capacity` samples after `incoming` has been
/// appended to `held`: the newest `capacity` samples of the two, in order.
pub open spec fn retained<T>(held: Seq<T>, incoming: Seq<T>, capacity: nat) -> Seq<T> {
    let all = held + incoming;
    if all.len() <= capacity {
        all
    } else {
        all.skip(all.len() - capacity)
    }
}

/// How many of the oldest samples are discarded when `incoming` samples are
/// appended to `held` samples in a queue of `capacity`.
pub open spec fn discarded(held: nat, incoming: nat, capacity: nat) -> nat {
    if held + incoming <= capacity {
        0
    } else {
        (held + incoming - capacity) as nat
    }
}

/// The buffer of `n` samples that a read hands out of a queue holding `held`:
/// the oldest samples first, then silence once they run out.
pub open spec fn delivered<T>(held: Seq<T>, n: nat, silence: T) -> Seq<T> {
    Seq::new(
        n,
        |i: int|
            if i < held.len() {
                held[i]
            } else {
                silence
            },
    )
}

/// What is left of `held` after a read of `n` samples.
pub open spec fn remaining<T>(held: Seq<T>, n: nat) -> Seq<T> {
    if n <= held.len() {
        held.skip(n as int)
    } else {
        Seq::empty()
    }
}

/// How many samples of a read of `n` had to be silence.
pub open spec fn shortfall(held: nat, n: nat) -> nat {
    if n <= held {
        0
    } else {
        (n - held) as nat
    }
}

/// `count` samples of silence.
pub open spec fn quiet<T>(count: nat, silence: T) -> Seq<T> {
    Seq::new(count, |i: int| silence)
}

/// The report of a write that discarded `dropped` samples.
pub open spec fn write_report(dropped: nat) -> WriteResult {
    if dropped == 0 {
        WriteResult::Written
    } else {
        WriteResult::Overrun { dropped: dropped as usize }
    }
}

/// The report of a read that was `missing` samples short.
pub open spec fn read_report(missing: nat) -> ReadResult {
    if missing == 0 {
        ReadResult::Filled
    } else {
        ReadResult::Underrun { shortfall: missing as usize }
    }
}

/// An event counter that stops at its largest value instead of wrapping.
pub open spec fn counted(counter: u64, events: nat) -> u64 {
    if counter + events > u64::MAX {
        u64::MAX
    } else {
        (counter + events) as u64
    }
}

/// The queue capacity for `seconds` of audio at `sample_rate` with `channels`
/// interleaved channels.
pub open spec fn capacity_for(seconds: u32, sample_rate: u32, channels: u16) -> nat {
    (seconds as nat) * (sample_rate as nat) * (channels as nat)
}

/// The slot of a ring of `capacity` slots that position `i` falls on, for
/// positions that run at most once past the end.
pub open spec fn wrapped(i: int, capacity: int) -> int {
    if i < capacity {
        i
    } else {
        i - capacity
    }
}

/// A fixed-capacity queue of samples with drop-oldest overflow and
/// silence-padded reads.
pub struct StreamAligner<T> {
    slots: Vec<T>,
    head: usize,
    held: usize,
    silence: T,
    overruns: u64,
    underruns: u64,
}

impl<T: Copy> View for StreamAligner<T> {
    type V = Seq<T>;

    /// The buffered samples, oldest first.
    closed spec fn view(&self) -> Seq<T> {
        Seq::new(
            self.held as nat,
            |i: int| self.slots@[wrapped(self.head + i, self.slots@.len() as int)],
        )
    }
}

impl<T: Copy> StreamAligner<T> {
    /// The representation invariant: a non-empty ring, a head inside it and
    /// no more samples than slots.
    pub closed spec fn wf(&self) -> bool {
        &&& 0 < self.slots@.len() <= usize::MAX
        &&& self.head < self.slots@.len()
        &&& self.held <= self.slots@.len()
    }

    /// The fixed number of samples the queue can hold.
    pub closed spec fn spec_capacity(&self) -> nat {
        self.slots@.len()
    }

    /// The value that stands for silence.
    pub closed spec fn spec_silence(&self) -> T {
        self.silence
    }

    /// The number of samples discarded by overflowing writes so far.
    pub closed spec fn spec_overrun_samples(&self) -> u64 {
        self.overruns
    }

    /// The number of silent samples handed out by starved reads so far.
    pub closed spec fn spec_underrun_samples(&self) -> u64 {
        self.underruns
    }

    /// A well-formed queue never holds more than its capacity.
    pub proof fn lemma_bounded(&self)
        requires
            self.wf(),
        ensures
            self@.len() <= self.spec_capacity(),
            self.spec_capacity() > 0,
            self.spec_capacity() <= usize::MAX,
    {
    }

    /// An empty queue of `capacity` samples, or `None` when `capacity` is zero.
    pub fn new(capacity: usize, silence: T) -> (made: Option<Self>)
        ensures
            made is Some <==> capacity > 0,
            made matches Some(a) ==> {
                &&& a.wf()
                &&& a@ == Seq::<T>::empty()
                &&& a.spec_capacity() == capacity
                &&& a.spec_silence() == silence
                &&& a.spec_overrun_samples() == 0
                &&& a.spec_underrun_samples() == 0
            },
    {
        if capacity == 0 {
            return None;
        }
        let mut slots: Vec<T> = Vec::new();
        let mut i: usize = 0;
        while i < capacity
            invariant
                i <= capacity,
                slots@.len() == i,
            decreases capacity - i,
        {
            slots.push(silence);
            i += 1;
        }
        let a = StreamAligner { slots, head: 0, held: 0, silence, overruns: 0, underruns: 0 };
        assert(a@ =~= Seq::<T>::empty());
        Some(a)
    }

    /// An empty queue sized for `seconds` of audio at `sample_rate` with
    /// `channels` channels, or `None` when that size is zero or does not fit
    /// the address space.
    pub fn sized_for(seconds: u32, sample_rate: u32, channels: u16, silence: T) -> (made: Option<
        Self,
    >)
        ensures
            made is Some <==> 0 < capacity_for(seconds, sample_rate, channels) <= usize::MAX,
            made matches Some(a) ==> {
                &&& a.wf()
                &&& a@ == Seq::<T>::empty()
                &&& a.spec_capacity() == capacity_for(seconds, sample_rate, channels)
                &&& a.spec_silence() == silence
                &&& a.spec_overrun_samples() == 0
                &&& a.spec_underrun_samples() == 0
            },
    {
        assert((seconds as u64) * (sample_rate as u64) <= 0xffff_ffff * 0xffff_ffff)
            by (nonlinear_arith)
            requires
                seconds <= 0xffff_ffff,
                sample_rate <= 0xffff_ffff,
        ;
        let per_second: u64 = (seconds as u64) * (sample_rate as u64);
        assert((per_second as u128) * (channels as u128) <= 0xffff_ffff_ffff_ffff * 0xffff)
            by (nonlinear_arith)
            requires
                per_second <= 0xffff_ffff_ffff_ffff,
                channels <= 0xffff,
        ;
        let total: u128 = (per_second as u128) * (channels as u128);
        assert(total == capacity_for(seconds, sample_rate, channels)) by (nonlinear_arith)
            requires
                per_second == seconds * sample_rate,
                total == per_second * channels,
        ;
        if total == 0 || total > usize::MAX as u128 {
            return None;
        }
        Self::new(total as usize, silence)
    }

    /// The fixed number of samples the queue can hold.
    pub fn capacity(&self) -> (n: usize)
        requires
            self.wf(),
        ensures
            n == self.spec_capacity(),
            n > 0,
    {
        self.slots.len()
    }

    /// The number of samples buffered.
    pub fn len(&self) -> (n: usize)
        requires
            self.wf(),
        ensures
            n == self@.len(),
            n <= self.spec_capacity(),
    {
        self.held
    }

    /// Whether nothing is buffered.
    pub fn is_empty(&self) -> (empty: bool)
        requires
            self.wf(),
        ensures
            empty <==> self@.len() == 0,
    {
        self.held == 0
    }

    /// The number of samples that can be written before the oldest are discarded.
    pub fn free(&self) -> (n: usize)
        requires
            self.wf(),
        ensures
            n == self.spec_capacity() - self@.len(),
    {
        self.slots.len() - self.held
    }

    /// The value that stands for silence.
    pub fn silence(&self) -> (s: T)
        ensures
            s == self.spec_silence(),
    {
        self.silence
    }

    /// The number of samples discarded by overflowing writes so far.
    pub fn overrun_samples(&self) -> (n: u64)
        ensures
            n == self.spec_overrun_samples(),
    {
        self.overruns
    }

    /// The number of silent samples handed out by starved reads so far.
    pub fn underrun_samples(&self) -> (n: u64)
        ensures
            n == self.spec_underrun_samples(),
    {
        self.underruns
    }

    /// Stores one sample, discarding the oldest one when the queue is full.
    /// Tells whether a sample was discarded.
    fn store(&mut self, x: T) -> (dropped: bool)
        requires
            old(self).wf(),
        ensures
            final(self).wf(),
            final(self).slots@.len() == old(self).slots@.len(),
            final(self).silence == old(self).silence,
            final(self).overruns == old(self).overruns,
            final(self).underruns == old(self).underruns,
            dropped <==> old(self)@.len() == old(self).slots@.len(),
            !dropped ==> final(self)@ == old(self)@.push(x),
            dropped ==> final(self)@ == old(self)@.skip(1).push(x),
    {
        let cap = self.slots.len();
        let ghost now = self@;
        if self.held == cap {
            self.slots[self.head] = x;
            self.head = if self.head + 1 < cap {
                self.head + 1
            } else {
                0
            };
            assert(self@ =~= now.skip(1).push(x));
            true
        } else {
            let tail = if self.head < cap - self.held {
                self.head + self.held
            } else {
                self.head - (cap - self.held)
            };
            self.slots[tail] = x;
            self.held += 1;
            assert(self@ =~= now.push(x));
            false
        }
    }

    /// Appends `samples`. When they do not fit, the oldest samples are
    /// discarded so that the newest `capacity` remain, and the number
    /// discarded is reported and added to the overrun counter.
    pub fn write(&mut self, samples: &[T]) -> (report: WriteResult)
        requires
            old(self).wf(),
        ensures
            final(self).wf(),
            final(self)@ == retained(old(self)@, samples@, old(self).spec_capacity()),
            final(self).spec_capacity() == old(self).spec_capacity(),
            final(self).spec_silence() == old(self).spec_silence(),
            final(self).spec_underrun_samples() == old(self).spec_underrun_samples(),
            final(self).spec_overrun_samples() == counted(
                old(self).spec_overrun_samples(),
                discarded(old(self)@.len(), samples@.len(), old(self).spec_capacity()),
            ),
            report == write_report(
                discarded(old(self)@.len(), samples@.len(), old(self).spec_capacity()),
            ),
    {
        let ghost cap = self.slots@.len();
        let n = samples.len();
        let ghost before = self@;
        let mut dropped: usize = 0;
        let mut i: usize = 0;
        assert(samples@.take(0) =~= Seq::<T>::empty());
        assert(self@ =~= retained(before, samples@.take(0), cap));
        while i < n
            invariant
                self.wf(),
                cap == self.slots@.len(),
                cap == old(self).spec_capacity(),
                n == samples@.len(),
                i <= n,
                before == old(self)@,
                before.len() <= cap,
                self@ == retained(before, samples@.take(i as int), cap),
                dropped == discarded(before.len(), i as nat, cap),
                self.silence == old(self).silence,
                self.underruns == old(self).underruns,
                self.overruns == old(self).overruns,
            decreases n - i,
        {
            let x = samples[i];
            proof {
                assert(samples@.take(i + 1) =~= samples@.take(i as int).push(x));
                lemma_retained_push(before, samples@.take(i as int), x, cap);
            }
            if self.store(x) {
                dropped += 1;
            }
            i += 1;
        }
        assert(samples@.take(n as int) =~= samples@);
        self.overruns = self.overruns.saturating_add(dropped as u64);
        if dropped == 0 {
            WriteResult::Written
        } else {
            WriteResult::Overrun { dropped }
        }
    }

    /// Appends `count` samples of silence, as `write` would.
    pub fn write_silence(&mut self, count: usize) -> (report: WriteResult)
        requires
            old(self).wf(),
        ensures
            final(self).wf(),
            final(self)@ == retained(
                old(self)@,
                quiet(count as nat, old(self).spec_silence()),
                old(self).spec_capacity(),
            ),
            final(self).spec_capacity() == old(self).spec_capacity(),
            final(self).spec_silence() == old(self).spec_silence(),
            final(self).spec_underrun_samples() == old(self).spec_underrun_samples(),
            final(self).spec_overrun_samples() == counted(
                old(self).spec_overrun_samples(),
                discarded(old(self)@.len(), count as nat, old(self).spec_capacity()),
            ),
            report == write_report(
                discarded(old(self)@.len(), count as nat, old(self).spec_capacity()),
            ),
    {
        let ghost cap = self.slots@.len();
        let ghost before = self@;
        let ghost samples = quiet(count as nat, self.silence);
        let mut dropped: usize = 0;
        let mut i: usize = 0;
        assert(samples.take(0) =~= Seq::<T>::empty());
        assert(self@ =~= retained(before, samples.take(0), cap));
        while i < count
            invariant
                self.wf(),
                cap == self.slots@.len(),
                cap == old(self).spec_capacity(),
                samples == quiet(count as nat, self.silence),
                i <= count,
                before == old(self)@,
                before.len() <= cap,
                self@ == retained(before, samples.take(i as int), cap),
                dropped == discarded(before.len(), i as nat, cap),
                self.silence == old(self).silence,
                self.underruns == old(self).underruns,
                self.overruns == old(self).overruns,
            decreases count - i,
        {
            let x = self.silence;
            proof {
                assert(samples.take(i + 1) =~= samples.take(i as int).push(x));
                lemma_retained_push(before, samples.take(i as int), x, cap);
            }
            if self.store(x) {
                dropped += 1;
            }
            i += 1;
        }
        assert(samples.take(count as int) =~= samples);
        self.overruns = self.overruns.saturating_add(dropped as u64);
        if dropped == 0 {
            WriteResult::Written
        } else {
            WriteResult::Overrun { dropped }
        }
    }

    /// Fills `out` completely: with the oldest buffered samples, which leave
    /// the queue, and with silence for whatever is missing. The number of
    /// silent samples is reported and added to the underrun counter.
    pub fn read_into(&mut self, out: &mut [T]) -> (report: ReadResult)
        requires
            old(self).wf(),
        ensures
            final(self).wf(),
            final(out)@ == delivered(old(self)@, old(out)@.len(), old(self).spec_silence()),
            final(self)@ == remaining(old(self)@, old(out)@.len()),
            final(self).spec_capacity() == old(self).spec_capacity(),
            final(self).spec_silence() == old(self).spec_silence(),
            final(self).spec_overrun_samples() == old(self).spec_overrun_samples(),
            final(self).spec_underrun_samples() == counted(
                old(self).spec_underrun_samples(),
                shortfall(old(self)@.len(), old(out)@.len()),
            ),
            report == read_report(shortfall(old(self)@.len(), old(out)@.len())),
    {
        let cap = self.slots.len();
        let n = out.len();
        let ghost before = self@;
        let mut missing: usize = 0;
        let mut i: usize = 0;
        assert(self@ =~= remaining(before, 0));
        while i < n
            invariant
                self.wf(),
                cap == self.slots@.len(),
                cap == old(self).spec_capacity(),
                n == out@.len(),
                n == old(out)@.len(),
                i <= n,
                before == old(self)@,
                self@ == remaining(before, i as nat),
                missing == shortfall(before.len(), i as nat),
                forall|j: int| 0 <= j < i ==> out@[j] == delivered(before, n as nat, self.silence)[j],
                self.silence == old(self).silence,
                self.underruns == old(self).underruns,
                self.overruns == old(self).overruns,
            decreases n - i,
        {
            let ghost now = self@;
            if self.held > 0 {
                assert(now.len() == self.held);
                assert(now[0] == self.slots@[self.head as int]);
                assert(i < before.len());
                assert(now[0] == before[i as int]);
                out[i] = self.slots[self.head];
                self.head = if self.head + 1 < cap {
                    self.head + 1
                } else {
                    0
                };
                self.held -= 1;
                assert(self@ =~= now.skip(1));
                assert(now.skip(1) =~= remaining(before, (i + 1) as nat));
            } else {
                out[i] = self.silence;
                missing += 1;
                assert(self@ =~= remaining(before, (i + 1) as nat));
            }
            i += 1;
        }
        assert(out@ =~= delivered(before, n as nat, self.silence));
        self.underruns = self.underruns.saturating_add(missing as u64);
        if missing == 0 {
            ReadResult::Filled
        } else {
            ReadResult::Underrun { shortfall: missing }
        }
    }

    /// Discards everything buffered. The counters are left as they are.
    pub fn clear(&mut self)
        requires
            old(self).wf(),
        ensures
            final(self).wf(),
            final(self)@ == Seq::<T>::empty(),
            final(self).spec_capacity() == old(self).spec_capacity(),
            final(self).spec_silence() == old(self).spec_silence(),
            final(self).spec_overrun_samples() == old(self).spec_overrun_samples(),
            final(self).spec_underrun_samples() == old(self).spec_underrun_samples(),
    {
        self.head = 0;
        self.held = 0;
        assert(self@ =~= Seq::<T>::empty());
    }
}

/// Appending one more sample to what was appended before gives the same
/// contents as appending everything at once.
pub proof fn lemma_retained_push<T>(held: Seq<T>, incoming: Seq<T>, x: T, capacity: nat)
    requires
        capacity > 0,
        held.len() <= capacity,
    ensures
        retained(retained(held, incoming, capacity), seq![x], capacity) == retained(
            held,
            incoming.push(x),
            capacity,
        ),
        retained(held, incoming, capacity).len() < capacity ==> retained(
            held,
            incoming.push(x),
            capacity,
        ) == retained(held, incoming, capacity).push(x),
        retained(held, incoming, capacity).len() == capacity ==> retained(
            held,
            incoming.push(x),
            capacity,
        ) == retained(held, incoming, capacity).skip(1).push(x),
        discarded(held.len(), incoming.len() + 1, capacity) == discarded(
            held.len(),
            incoming.len(),
            capacity,
        ) + (if retained(held, incoming, capacity).len() == capacity {
            1nat
        } else {
            0nat
        }),
{
    lemma_retained_compose(held, incoming, seq![x], capacity);
    assert(incoming + seq![x] =~= incoming.push(x));
    let r = retained(held, incoming, capacity);
    if r.len() < capacity {
        assert(retained(r, seq![x], capacity) =~= r.push(x));
    } else {
        assert(retained(r, seq![x], capacity) =~= r.skip(1).push(x));
    }
}

/// Two writes in a row keep what one write of both parts keeps.
pub proof fn lemma_retained_compose<T>(held: Seq<T>, first: Seq<T>, second: Seq<T>, capacity: nat)
    ensures
        retained(retained(held, first, capacity), second, capacity) == retained(
            held,
            first + second,
            capacity,
        ),
{
    let once = retained(held, first, capacity);
    let all = held + (first + second);
    assert(held + first + second =~= all);
    if (held + first).len() <= capacity {
        assert(once + second =~= all);
    } else {
        let cut = (held + first).len() - capacity;
        assert(once + second =~= all.skip(cut));
        assert(all.skip(cut).skip(all.skip(cut).len() - capacity) =~= all.skip(
            all.len() - capacity,
        ));
    }
    assert(retained(once, second, capacity) =~= retained(held, first + second, capacity));
}

/// The contents of a queue that held `held` after the `writes` were made in order.
pub open spec fn after_writes<T>(held: Seq<T>, writes: Seq<Seq<T>>, capacity: nat) -> Seq<T>
    decreases writes.len(),
{
    if writes.len() == 0 {
        held
    } else {
        retained(after_writes(held, writes.drop_last(), capacity), writes.last(), capacity)
    }
}

/// The number of samples that the `writes`, made in order, discarded in total.
pub open spec fn discarded_by_writes<T>(held: Seq<T>, writes: Seq<Seq<T>>, capacity: nat) -> nat
    decreases writes.len(),
{
    if writes.len() == 0 {
        0
    } else {
        discarded_by_writes(held, writes.drop_last(), capacity) + discarded(
            after_writes(held, writes.drop_last(), capacity).len(),
            writes.last().len(),
            capacity,
        )
    }
}

/// The contents of a queue that held `held` after `reads` reads of `frame` samples each.
pub open spec fn after_reads<T>(held: Seq<T>, frame: nat, reads: nat) -> Seq<T>
    decreases reads,
{
    if reads == 0 {
        held
    } else {
        remaining(after_reads(held, frame, (reads - 1) as nat), frame)
    }
}

/// Everything that `reads` reads of `frame` samples each handed out, one
/// buffer after the other.
pub open spec fn read_back<T>(held: Seq<T>, frame: nat, reads: nat, silence: T) -> Seq<T>
    decreases reads,
{
    if reads == 0 {
        Seq::empty()
    } else {
        read_back(held, frame, (reads - 1) as nat, silence) + delivered(
            after_reads(held, frame, (reads - 1) as nat),
            frame,
            silence,
        )
    }
}

/// The number of silent samples among everything that `reads` reads of
/// `frame` samples each handed out.
pub open spec fn missing_in_reads<T>(held: Seq<T>, frame: nat, reads: nat) -> nat
    decreases reads,
{
    if reads == 0 {
        0
    } else {
        missing_in_reads(held, frame, (reads - 1) as nat) + shortfall(
            after_reads(held, frame, (reads - 1) as nat).len(),
            frame,
        )
    }
}

/// Any number of writes in a row leave what a single write of all their
/// samples leaves, and discard as many samples in total.
pub proof fn lemma_writes_as_one<T>(held: Seq<T>, writes: Seq<Seq<T>>, capacity: nat)
    requires
        held.len() <= capacity,
    ensures
        after_writes(held, writes, capacity) == retained(held, writes.flatten(), capacity),
        after_writes(held, writes, capacity).len() <= capacity,
        discarded_by_writes(held, writes, capacity) == discarded(
            held.len(),
            writes.flatten().len(),
            capacity,
        ),
    decreases writes.len(),
{
    if writes.len() == 0 {
        assert(held + Seq::<T>::empty() =~= held);
    } else {
        let front = writes.drop_last();
        lemma_writes_as_one(held, front, capacity);
        lemma_retained_compose(held, front.flatten(), writes.last(), capacity);
        front.lemma_flatten_push(writes.last());
        assert(front.push(writes.last()) =~= writes);
    }
}

/// Any number of reads of one size in a row hand out what a single read of
/// their total size hands out, leave what it leaves and are as many samples
/// short.
pub proof fn lemma_reads_as_one<T>(held: Seq<T>, frame: nat, reads: nat, silence: T)
    ensures
        after_reads(held, frame, reads) == remaining(held, reads * frame),
        read_back(held, frame, reads, silence) == delivered(held, reads * frame, silence),
        missing_in_reads(held, frame, reads) == shortfall(held.len(), reads * frame),
    decreases reads,
{
    if reads == 0 {
        assert(0 * frame == 0) by (nonlinear_arith);
        assert(remaining(held, 0) =~= held);
        assert(delivered(held, 0, silence) =~= Seq::<T>::empty());
    } else {
        let earlier = (reads - 1) as nat;
        lemma_reads_as_one(held, frame, earlier, silence);
        assert(reads * frame == earlier * frame + frame) by (nonlinear_arith)
            requires
                reads == earlier + 1,
        ;
        assert(earlier * frame >= 0) by (nonlinear_arith);
        assert(remaining(remaining(held, earlier * frame), frame) =~= remaining(
            held,
            reads * frame,
        ));
        assert(delivered(held, earlier * frame, silence) + delivered(
            remaining(held, earlier * frame),
            frame,
            silence,
        ) =~= delivered(held, reads * frame, silence));
    }
}

/// Round trip: when the writes made to an empty queue fit its capacity in
/// total, nothing is discarded, the queue holds every written sample in the
/// order written, and reading in buffers of `frame` samples hands those
/// samples back in that order and without gaps, followed by silence only.
pub proof fn lemma_round_trip<T>(
    writes: Seq<Seq<T>>,
    capacity: nat,
    frame: nat,
    reads: nat,
    silence: T,
)
    requires
        writes.flatten().len() <= capacity,
    ensures
        after_writes(Seq::<T>::empty(), writes, capacity) == writes.flatten(),
        discarded_by_writes(Seq::<T>::empty(), writes, capacity) == 0,
        read_back(after_writes(Seq::<T>::empty(), writes, capacity), frame, reads, silence)
            == delivered(writes.flatten(), reads * frame, silence),
        forall|i: int|
            0 <= i < reads * frame ==> #[trigger] read_back(
                after_writes(Seq::<T>::empty(), writes, capacity),
                frame,
                reads,
                silence,
            )[i] == if i < writes.flatten().len() {
                writes.flatten()[i]
            } else {
                silence
            },
        reads * frame >= writes.flatten().len() ==> after_reads(
            after_writes(Seq::<T>::empty(), writes, capacity),
            frame,
            reads,
        ) == Seq::<T>::empty(),
{
    lemma_writes_as_one(Seq::<T>::empty(), writes, capacity);
    assert(Seq::<T>::empty() + writes.flatten() =~= writes.flatten());
    lemma_reads_as_one(writes.flatten(), frame, reads, silence);
    assert(reads * frame >= 0) by (nonlinear_arith);
    if reads * frame >= writes.flatten().len() {
        assert(remaining(writes.flatten(), reads * frame) =~= Seq::<T>::empty());
    }
}

/// Underrun: a read of `frame` samples from a queue that was never written
/// hands out `frame` samples of silence, reports the whole buffer as missing,
/// adds `frame` to the underrun counter and leaves the queue empty. The
/// counter is stated for as long as it has room to count.
pub proof fn lemma_read_before_write<T>(frame: nat, silence: T, counter: u64)
    requires
        counter + frame <= u64::MAX,
    ensures
        delivered(Seq::<T>::empty(), frame, silence) == quiet(frame, silence),
        delivered(Seq::<T>::empty(), frame, silence).len() == frame,
        shortfall(0, frame) == frame,
        counted(counter, shortfall(0, frame)) == counter + frame,
        remaining(Seq::<T>::empty(), frame) == Seq::<T>::empty(),
        frame > 0 ==> read_report(shortfall(0, frame)) == (ReadResult::Underrun {
            shortfall: frame as usize,
        }),
{
    assert(delivered(Seq::<T>::empty(), frame, silence) =~= quiet(frame, silence));
    assert(remaining(Seq::<T>::empty(), frame) =~= Seq::<T>::empty());
}

/// Overrun: when the writes made to an empty queue exceed its capacity in
/// total, exactly the oldest excess samples are discarded and the newest
/// `capacity` samples remain. Whatever is written, the queue never holds
/// more than its capacity.
pub proof fn lemma_overrun_drops_oldest<T>(writes: Seq<Seq<T>>, capacity: nat)
    ensures
        after_writes(Seq::<T>::empty(), writes, capacity).len() <= capacity,
        writes.flatten().len() > capacity ==> {
            &&& after_writes(Seq::<T>::empty(), writes, capacity) == writes.flatten().skip(
                writes.flatten().len() - capacity,
            )
            &&& after_writes(Seq::<T>::empty(), writes, capacity).len() == capacity
            &&& discarded_by_writes(Seq::<T>::empty(), writes, capacity)
                == writes.flatten().len() - capacity
        },
{
    lemma_writes_as_one(Seq::<T>::empty(), writes, capacity);
    assert(Seq::<T>::empty() + writes.flatten() =~= writes.flatten());
}

} // verus!
