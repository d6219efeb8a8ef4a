//! The resampler for sixteen-bit samples: converts interleaved frames from
//! one sample rate to another by linear interpolation, in whole numbers only.

use vstd::prelude::*;

verus! {

/// The number of frames that `frames` frames at `from_rate` become at
/// `to_rate`, rounded down.
pub open spec fn resampled_frames(frames: nat, from_rate: u32, to_rate: u32) -> nat {
    (frames * to_rate / from_rate as int) as nat
}

/// The value `num / den` of the way from `x0` to `x1`, rounded towards `x0`.
pub open spec fn between(x0: i16, x1: i16, num: int, den: int) -> int {
    if x1 >= x0 {
        x0 + (x1 - x0) * num / den
    } else {
        x0 - (x0 - x1) * num / den
    }
}

/// The sample of channel `channel` in output frame `frame`: the input is
/// read at position `frame * from_rate / to_rate`, between the two input
/// frames around that position; the last input frame stands in for the one
/// that would follow it.
pub open spec fn resampled_sample(
    input: Seq<i16>,
    channels: nat,
    from_rate: u32,
    to_rate: u32,
    frame: int,
    channel: int,
) -> int {
    let frames = input.len() / channels;
    let position = frame * from_rate;
    let here = position / to_rate as int;
    let next = if here + 1 < frames {
        here + 1
    } else {
        here
    };
    between(
        input[here * channels + channel],
        input[next * channels + channel],
        position % to_rate as int,
        to_rate as int,
    )
}

/// Whether `len` interleaved samples of `channels` channels can be
/// resampled from `from_rate` to `to_rate`: there is a channel, the rates
/// are not zero, the samples are whole frames, and the result fits the
/// address space.
pub open spec fn resamplable(len: nat, channels: u16, from_rate: u32, to_rate: u32) -> bool {
    &&& channels > 0
    &&& from_rate > 0
    &&& to_rate > 0
    &&& len % channels as nat == 0
    &&& resampled_frames(len / channels as nat, from_rate, to_rate) * channels <= usize::MAX
}

/// The resampled signal, interleaved as the input is.
pub open spec fn resampled(input: Seq<i16>, channels: u16, from_rate: u32, to_rate: u32) -> Seq<
    i16,
> {
    Seq::new(
        resampled_frames(input.len() / channels as nat, from_rate, to_rate) * channels as nat,
        |k: int|
            resampled_sample(
                input,
                channels as nat,
                from_rate,
                to_rate,
                k / channels as int,
                k % channels as int,
            ) as i16,
    )
}

/// A value between two samples is a sample.
pub proof fn lemma_between_bounds(x0: i16, x1: i16, num: int, den: int)
    requires
        0 <= num < den,
    ensures
        i16::MIN <= between(x0, x1, num, den) <= i16::MAX,
        x0 <= x1 ==> x0 <= between(x0, x1, num, den) <= x1,
        x1 <= x0 ==> x1 <= between(x0, x1, num, den) <= x0,
        num == 0 ==> between(x0, x1, num, den) == x0,
{
    let d = if x1 >= x0 {
        x1 - x0
    } else {
        x0 - x1
    };
    assert(0 <= d * num / den <= d && (num == 0 ==> d * num / den == 0)) by (nonlinear_arith)
        requires
            0 <= d,
            0 <= num < den,
    ;
}

/// Every output frame reads the input inside its frames.
pub proof fn lemma_position_inside(frames: nat, from_rate: u32, to_rate: u32, frame: int)
    requires
        from_rate > 0,
        to_rate > 0,
        0 <= frame < resampled_frames(frames, from_rate, to_rate),
    ensures
        0 <= frame * from_rate / to_rate as int,
        (frame * from_rate / (to_rate as int)) < frames,
        0 <= (frame * from_rate % (to_rate as int)) < to_rate,
{
    let a = from_rate as int;
    let b = to_rate as int;
    let n = frames as int;
    let q = n * b / a;
    assert((frame + 1) * a <= n * b) by (nonlinear_arith)
        requires
            frame + 1 <= q,
            q == n * b / a,
            a > 0,
            n * b >= 0,
    ;
    assert(0 <= frame * a / b < n && 0 <= frame * a % b < b) by (nonlinear_arith)
        requires
            (frame + 1) * a <= n * b,
            a > 0,
            b > 0,
            frame >= 0,
            n >= 0,
    ;
}

/// Resampling to the same rate changes nothing.
pub proof fn lemma_same_rate(input: Seq<i16>, channels: u16, rate: u32)
    requires
        channels > 0,
        rate > 0,
        input.len() % channels as nat == 0,
    ensures
        resampled(input, channels, rate, rate) == input,
{
    let c = channels as int;
    let r = rate as int;
    let frames = (input.len() / channels as nat) as int;
    assert(frames * r / r == frames) by (nonlinear_arith)
        requires
            r > 0,
    ;
    assert(frames * c == input.len()) by (nonlinear_arith)
        requires
            frames == input.len() as int / c,
            input.len() as int % c == 0,
            c > 0,
    ;
    let out = resampled(input, channels, rate, rate);
    assert(out.len() == input.len());
    assert forall|k: int| 0 <= k < input.len() implies out[k] == input[k] by {
        let f = k / c;
        let ch = k % c;
        assert(f * r / r == f && f * r % r == 0) by (nonlinear_arith)
            requires
                r > 0,
        ;
        assert(f * c + ch == k && 0 <= ch < c && 0 <= f < frames) by (nonlinear_arith)
            requires
                f == k / c,
                ch == k % c,
                c > 0,
                0 <= k < frames * c,
        ;
        let next = if f + 1 < frames {
            f + 1
        } else {
            f
        };
        lemma_between_bounds(input[f * c + ch], input[next * c + ch], 0, r);
    }
    assert(out =~= input);
}

/// The smallest number of frames at `from_rate` that become at least
/// `wanted` frames at `to_rate`.
pub open spec fn frames_needed(wanted: nat, from_rate: u32, to_rate: u32) -> nat {
    ((wanted * from_rate + to_rate - 1) / to_rate as int) as nat
}

/// `frames_needed` frames are enough, and one fewer is not.
pub proof fn lemma_frames_needed(wanted: nat, from_rate: u32, to_rate: u32)
    requires
        from_rate > 0,
        to_rate > 0,
    ensures
        resampled_frames(frames_needed(wanted, from_rate, to_rate), from_rate, to_rate) >= wanted,
        forall|fewer: nat|
            fewer < frames_needed(wanted, from_rate, to_rate) ==> resampled_frames(
                fewer,
                from_rate,
                to_rate,
            ) < wanted,
{
    let a = from_rate as int;
    let b = to_rate as int;
    let w = wanted as int;
    let n = (w * a + b - 1) / b;
    assert(n * b >= w * a && (n - 1) * b < w * a && n >= 0) by (nonlinear_arith)
        requires
            n == (w * a + b - 1) / b,
            a > 0,
            b > 0,
            w >= 0,
    ;
    assert(n * b / a >= w) by (nonlinear_arith)
        requires
            n * b >= w * a,
            a > 0,
            w >= 0,
    ;
    assert forall|fewer: nat| fewer < frames_needed(wanted, from_rate, to_rate) implies resampled_frames(
        fewer,
        from_rate,
        to_rate,
    ) < wanted by {
        let m = fewer as int;
        assert(m * b / a < w) by (nonlinear_arith)
            requires
                0 <= m <= n - 1,
                (n - 1) * b < w * a,
                a > 0,
                b > 0,
        ;
    }
}

/// Tells how many frames at `from_rate` have to be resampled to get at
/// least `wanted` frames at `to_rate`; `None` where a rate is zero or the
/// number does not fit a `usize`.
pub fn source_frames(wanted: usize, from_rate: u32, to_rate: u32) -> (frames: Option<usize>)
    ensures
        frames is Some <==> from_rate > 0 && to_rate > 0 && frames_needed(
            wanted as nat,
            from_rate,
            to_rate,
        ) <= usize::MAX,
        frames matches Some(n) ==> n == frames_needed(wanted as nat, from_rate, to_rate),
{
    if from_rate == 0 || to_rate == 0 {
        return None;
    }
    assert((wanted as u128) * (from_rate as u128) <= 0xffff_ffff_ffff_ffff * 0xffff_ffff)
        by (nonlinear_arith)
        requires
            wanted <= 0xffff_ffff_ffff_ffff,
            from_rate <= 0xffff_ffff,
    ;
    let needed: u128 = ((wanted as u128) * (from_rate as u128) + (to_rate as u128 - 1)) / (
    to_rate as u128);
    if needed > usize::MAX as u128 {
        None
    } else {
        Some(needed as usize)
    }
}

/// Computes a value between two samples.
fn interpolate(x0: i16, x1: i16, num: u32, den: u32) -> (value: i16)
    requires
        num < den,
    ensures
        value == between(x0, x1, num as int, den as int),
{
    proof {
        lemma_between_bounds(x0, x1, num as int, den as int);
    }
    if x1 >= x0 {
        let d: i64 = x1 as i64 - x0 as i64;
        assert(0 <= d * (num as i64) <= 0xffff * 0xffff_ffff) by (nonlinear_arith)
            requires
                0 <= d <= 0xffff,
                0 <= num <= 0xffff_ffff,
        ;
        let step: i64 = d * (num as i64) / (den as i64);
        (x0 as i64 + step) as i16
    } else {
        let d: i64 = x0 as i64 - x1 as i64;
        assert(0 <= d * (num as i64) <= 0xffff * 0xffff_ffff) by (nonlinear_arith)
            requires
                0 <= d <= 0xffff,
                0 <= num <= 0xffff_ffff,
        ;
        let step: i64 = d * (num as i64) / (den as i64);
        (x0 as i64 - step) as i16
    }
}

/// Resamples interleaved frames of `channels` channels from `from_rate` to
/// `to_rate` by linear interpolation. Returns `None` where there is no
/// channel, a rate is zero, the input is not made of whole frames, or the
/// result would not fit the address space.
pub fn resample(input: &[i16], channels: u16, from_rate: u32, to_rate: u32) -> (output: Option<
    Vec<i16>,
>)
    ensures
        output is Some <==> resamplable(input@.len(), channels, from_rate, to_rate),
        output matches Some(samples) ==> samples@ == resampled(
            input@,
            channels,
            from_rate,
            to_rate,
        ),
{
    if channels == 0 || from_rate == 0 || to_rate == 0 {
        return None;
    }
    let width = channels as usize;
    let len = input.len();
    if len % width != 0 {
        return None;
    }
    let frames = len / width;
    assert((frames as u128) * (to_rate as u128) <= 0xffff_ffff_ffff_ffff * 0xffff_ffff)
        by (nonlinear_arith)
        requires
            frames <= 0xffff_ffff_ffff_ffff,
            to_rate <= 0xffff_ffff,
    ;
    let produced: u128 = (frames as u128) * (to_rate as u128) / (from_rate as u128);
    assert(produced == resampled_frames(frames as nat, from_rate, to_rate));
    assert(produced * (width as u128) <= 0xffff_ffff_ffff_ffff * 0xffff_ffff * 0xffff)
        by (nonlinear_arith)
        requires
            produced <= 0xffff_ffff_ffff_ffff * 0xffff_ffff,
            width <= 0xffff,
    ;
    if produced * (width as u128) > usize::MAX as u128 {
        return None;
    }
    assert(produced <= produced * (width as u128)) by (nonlinear_arith)
        requires
            width >= 1,
            produced >= 0,
    ;
    let out_frames = produced as usize;
    assert(frames * width == len) by (nonlinear_arith)
        requires
            frames == len / width,
            len % width == 0,
            width > 0,
    ;
    let mut output: Vec<i16> = Vec::new();
    let mut frame: usize = 0;
    while frame < out_frames
        invariant
            frame <= out_frames,
            width == channels,
            width > 0,
            from_rate > 0,
            to_rate > 0,
            len == input@.len(),
            frames == len / width,
            frames * width == len,
            out_frames == resampled_frames(frames as nat, from_rate, to_rate),
            out_frames * width <= usize::MAX,
            output@.len() == frame * width,
            forall|k: int|
                0 <= k < frame * width ==> output@[k] == resampled_sample(
                    input@,
                    width as nat,
                    from_rate,
                    to_rate,
                    k / width as int,
                    k % width as int,
                ) as i16,
        decreases out_frames - frame,
    {
        proof {
            lemma_position_inside(frames as nat, from_rate, to_rate, frame as int);
        }
        assert((frame as u128) * (from_rate as u128) <= 0xffff_ffff_ffff_ffff * 0xffff_ffff)
            by (nonlinear_arith)
            requires
                frame <= 0xffff_ffff_ffff_ffff,
                from_rate <= 0xffff_ffff,
        ;
        let position: u128 = (frame as u128) * (from_rate as u128);
        let here = (position / (to_rate as u128)) as usize;
        let num = (position % (to_rate as u128)) as u32;
        let next = if here + 1 < frames {
            here + 1
        } else {
            here
        };
        assert(here * width + width <= len && next * width + width <= len) by (nonlinear_arith)
            requires
                here < frames,
                next < frames,
                frames * width == len,
                width > 0,
        ;
        let mut channel: usize = 0;
        while channel < width
            invariant
                frame < out_frames,
                channel <= width,
                width == channels,
                width > 0,
                to_rate > 0,
                len == input@.len(),
                frames == len / width,
                here == frame * from_rate / to_rate as int,
                num == frame * from_rate % to_rate as int,
                num < to_rate,
                next == if here + 1 < frames {
                    here + 1
                } else {
                    here as int
                },
                here * width + width <= len,
                next * width + width <= len,
                output@.len() == frame * width + channel,
                forall|k: int|
                    0 <= k < frame * width + channel ==> output@[k] == resampled_sample(
                        input@,
                        width as nat,
                        from_rate,
                        to_rate,
                        k / width as int,
                        k % width as int,
                    ) as i16,
            decreases width - channel,
        {
            let ghost at = frame * width + channel;
            assert(at % width as int == channel && at / width as int == frame) by (nonlinear_arith)
                requires
                    at == frame * width + channel,
                    0 <= channel < width,
                    0 <= frame,
            ;
            let value = interpolate(
                input[here * width + channel],
                input[next * width + channel],
                num,
                to_rate,
            );
            output.push(value);
            channel += 1;
        }
        assert((frame + 1) * width == frame * width + width) by (nonlinear_arith);
        frame += 1;
    }
    assert(output@ =~= resampled(input@, channels, from_rate, to_rate));
    Some(output)
}

} // verus!
