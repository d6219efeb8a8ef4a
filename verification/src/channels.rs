//! Channels: from one buffer per channel to one buffer of frames, from
//! frames of several channels to one channel, and back.

use vstd::prelude::*;

verus! {

/// Whether `channels` can be interleaved: there is a channel, the first
/// channel holds a sample, no channel is shorter than the first, and the
/// interleaved buffer fits the address space.
pub open spec fn interleavable<T>(channels: Seq<Seq<T>>) -> bool {
    &&& channels.len() > 0
    &&& channels[0].len() > 0
    &&& forall|c: int| 0 <= c < channels.len() ==> (#[trigger] channels[c]).len() >= channels[0].len()
    &&& channels.len() * channels[0].len() <= usize::MAX
}

/// The interleaved buffer: as many frames as the first channel has samples,
/// every frame holding one sample of every channel in the order of the channels.
pub open spec fn interleaved<T>(channels: Seq<Seq<T>>) -> Seq<T> {
    Seq::new(
        channels.len() * channels[0].len(),
        |i: int| channels[i % channels.len() as int][i / channels.len() as int],
    )
}

/// The views of `channels`, in order.
pub open spec fn channel_views<T>(channels: Seq<Vec<T>>) -> Seq<Seq<T>> {
    Seq::new(channels.len(), |c: int| channels[c]@)
}

/// Interleaves the buffers of the channels of a device into one buffer of
/// frames. The first channel sets the number of frames; what later channels
/// hold beyond it is left out. Returns `None` where there is nothing to
/// interleave or a channel is too short.
pub fn interleave<T: Copy>(channels: &Vec<Vec<T>>) -> (frames: Option<Vec<T>>)
    ensures
        frames is Some <==> interleavable(channel_views(channels@)),
        frames matches Some(buffer) ==> buffer@ == interleaved(channel_views(channels@)),
{
    let ghost views = channel_views(channels@);
    let count = channels.len();
    if count == 0 {
        return None;
    }
    assert(views[0] == channels@[0]@);
    let len = channels[0].len();
    if len == 0 {
        return None;
    }
    let total = match count.checked_mul(len) {
        Some(total) => total,
        None => {
            return None;
        },
    };
    let mut c: usize = 0;
    while c < count
        invariant
            c <= count,
            count == channels@.len(),
            views == channel_views(channels@),
            len == views[0].len(),
            forall|k: int| 0 <= k < c ==> (#[trigger] views[k]).len() >= len,
        decreases count - c,
    {
        assert(views[c as int] == channels@[c as int]@);
        if channels[c].len() < len {
            return None;
        }
        c += 1;
    }
    let mut buffer: Vec<T> = Vec::new();
    let mut frame: usize = 0;
    while frame < len
        invariant
            frame <= len,
            count == channels@.len(),
            count > 0,
            views == channel_views(channels@),
            len == views[0].len(),
            total == count * len,
            forall|k: int| 0 <= k < count ==> (#[trigger] views[k]).len() >= len,
            buffer@.len() == frame * count,
            forall|i: int|
                0 <= i < frame * count ==> buffer@[i] == views[i % count as int][i / count as int],
        decreases len - frame,
    {
        let mut c: usize = 0;
        while c < count
            invariant
                frame < len,
                c <= count,
                count == channels@.len(),
                count > 0,
                views == channel_views(channels@),
                len == views[0].len(),
                forall|k: int| 0 <= k < count ==> (#[trigger] views[k]).len() >= len,
                buffer@.len() == frame * count + c,
                forall|i: int|
                    0 <= i < frame * count + c ==> buffer@[i] == views[i % count as int][i
                        / count as int],
            decreases count - c,
        {
            assert(views[c as int] == channels@[c as int]@);
            assert(views[c as int].len() >= len);
            let ghost at = frame * count + c;
            assert(at % count as int == c && at / count as int == frame) by (nonlinear_arith)
                requires
                    at == frame * count + c,
                    0 <= c < count,
                    0 <= frame,
            ;
            buffer.push(channels[c][frame]);
            c += 1;
        }
        assert((frame + 1) * count == frame * count + count) by (nonlinear_arith);
        frame += 1;
    }
    assert(len * count == count * len) by (nonlinear_arith);
    assert(buffer@ =~= interleaved(views));
    Some(buffer)
}

/// The sum of the first `count` samples of the frame that starts at `start`.
pub open spec fn frame_sum(samples: Seq<i16>, start: int, count: nat) -> int
    decreases count,
{
    if count == 0 {
        0
    } else {
        frame_sum(samples, start, (count - 1) as nat) + samples[start + count - 1]
    }
}

/// The mean of `count` samples that add up to `sum`, rounded towards zero.
pub open spec fn mean_of(sum: int, count: int) -> int {
    if sum >= 0 {
        sum / count
    } else {
        -((-sum) / count)
    }
}

/// One channel made of frames of `channels` channels: every frame becomes
/// the mean of its samples.
pub open spec fn downmixed(samples: Seq<i16>, channels: u16) -> Seq<i16> {
    Seq::new(
        samples.len() / channels as nat,
        |f: int| mean_of(frame_sum(samples, f * channels, channels as nat), channels as int) as i16,
    )
}

/// Frames of `channels` channels made of one channel: every sample is
/// repeated on every channel.
pub open spec fn upmixed(samples: Seq<i16>, channels: u16) -> Seq<i16> {
    Seq::new(samples.len() * channels as nat, |i: int| samples[i / channels as int])
}

/// The sum of `count` samples is at most `count` times the largest sample
/// in magnitude, and so is their mean a sample.
pub proof fn lemma_frame_sum_bounds(samples: Seq<i16>, start: int, count: nat)
    requires
        0 <= start,
        start + count <= samples.len(),
    ensures
        count * i16::MIN <= frame_sum(samples, start, count) <= count * i16::MAX,
        count > 0 ==> i16::MIN <= mean_of(frame_sum(samples, start, count), count as int)
            <= i16::MAX,
    decreases count,
{
    if count > 0 {
        lemma_frame_sum_bounds(samples, start, (count - 1) as nat);
        let sum = frame_sum(samples, start, count);
        let c = count as int;
        assert(c * (-32768) <= sum <= c * 32767);
        if sum >= 0 {
            assert(0 <= sum / c <= 32767) by (nonlinear_arith)
                requires
                    0 <= sum <= c * 32767,
                    c > 0,
            ;
        } else {
            assert(0 <= (-sum) / c <= 32768) by (nonlinear_arith)
                requires
                    0 < -sum <= c * 32768,
                    c > 0,
            ;
        }
    }
}

/// Mixes interleaved frames of `channels` channels down to one channel by
/// taking the mean of every frame, rounded towards zero. Returns `None`
/// where there is no channel or the samples are not whole frames.
pub fn downmix(samples: &[i16], channels: u16) -> (mono: Option<Vec<i16>>)
    ensures
        mono is Some <==> channels > 0 && samples@.len() % channels as nat == 0,
        mono matches Some(mixed) ==> mixed@ == downmixed(samples@, channels),
{
    if channels == 0 {
        return None;
    }
    let width = channels as usize;
    let len = samples.len();
    if len % width != 0 {
        return None;
    }
    let frames = len / width;
    assert(frames * width == len) by (nonlinear_arith)
        requires
            frames == len / width,
            len % width == 0,
            width > 0,
    ;
    let mut mono: Vec<i16> = Vec::new();
    let mut frame: usize = 0;
    while frame < frames
        invariant
            frame <= frames,
            width == channels,
            width > 0,
            len == samples@.len(),
            frames * width == len,
            frames == len / width,
            mono@.len() == frame,
            forall|f: int|
                0 <= f < frame ==> mono@[f] == mean_of(
                    frame_sum(samples@, f * width, width as nat),
                    width as int,
                ) as i16,
        decreases frames - frame,
    {
        assert(frame * width + width <= len) by (nonlinear_arith)
            requires
                frame < frames,
                frames * width == len,
                width > 0,
        ;
        let start = frame * width;
        let mut sum: i64 = 0;
        let mut c: usize = 0;
        while c < width
            invariant
                c <= width,
                width <= 0xffff,
                start + width <= len,
                len == samples@.len(),
                sum == frame_sum(samples@, start as int, c as nat),
                c * i16::MIN <= sum <= c * i16::MAX,
            decreases width - c,
        {
            sum = sum + samples[start + c] as i64;
            c += 1;
        }
        proof {
            lemma_frame_sum_bounds(samples@, start as int, width as nat);
        }
        let mean: i64 = if sum >= 0 {
            sum / (width as i64)
        } else {
            -((-sum) / (width as i64))
        };
        mono.push(mean as i16);
        frame += 1;
    }
    assert(mono@ =~= downmixed(samples@, channels));
    Some(mono)
}

/// Spreads one channel over frames of `channels` channels by repeating
/// every sample on every channel. Returns `None` where the frames would not
/// fit the address space.
pub fn upmix(samples: &[i16], channels: u16) -> (frames: Option<Vec<i16>>)
    ensures
        frames is Some <==> samples@.len() * channels <= usize::MAX,
        frames matches Some(spread) ==> spread@ == upmixed(samples@, channels),
{
    let width = channels as usize;
    let len = samples.len();
    if len.checked_mul(width).is_none() {
        return None;
    }
    let mut spread: Vec<i16> = Vec::new();
    let mut at: usize = 0;
    while at < len
        invariant
            at <= len,
            width == channels,
            len == samples@.len(),
            len * width <= usize::MAX,
            spread@.len() == at * width,
            forall|i: int| 0 <= i < at * width ==> spread@[i] == samples@[i / width as int],
        decreases len - at,
    {
        let mut c: usize = 0;
        while c < width
            invariant
                at < len,
                c <= width,
                width == channels,
                len == samples@.len(),
                spread@.len() == at * width + c,
                forall|i: int| 0 <= i < at * width + c ==> spread@[i] == samples@[i / width as int],
            decreases width - c,
        {
            let ghost i = at * width + c;
            assert(i / width as int == at) by (nonlinear_arith)
                requires
                    i == at * width + c,
                    0 <= c < width,
                    0 <= at,
            ;
            spread.push(samples[at]);
            c += 1;
        }
        assert((at + 1) * width == at * width + width) by (nonlinear_arith);
        at += 1;
    }
    assert(spread@ =~= upmixed(samples@, channels));
    Some(spread)
}

} // verus!
