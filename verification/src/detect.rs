//! The known-pattern detector: where in a capture a played pattern arrived,
//! and how much the capture resembles it there.

use vstd::prelude::*;
use crate::signal::{
    audible, correlate, correlation, dot_prefix, energy, energy_of, lemma_dot_below_energies,
    lemma_dot_bound, lemma_energy_from, lemma_energy_sign, lemma_window_energy, window,
    window_energy, PRODUCT_LIMIT,
};

verus! {

/// The longest pattern the detector accepts.
pub const MAX_PATTERN_LEN: usize = 65536;

/// The confidence of a perfect match, in percent.
pub const FULL_CONFIDENCE: u32 = 100;

/// Where a pattern was found and how well the capture matches it there.
#[derive(Clone, Copy, Debug, PartialEq, Eq, Structural)]
pub struct Detection {
    /// The number of samples by which the capture lags the pattern.
    pub lag: usize,
    /// The squared correlation coefficient at `lag`, in percent.
    pub confidence: u32,
}

/// Whether `capture` can be searched for `pattern`: the pattern is not
/// empty, not longer than the detector accepts and not longer than the capture.
pub open spec fn searchable(pattern: Seq<i16>, capture: Seq<i16>) -> bool {
    0 < pattern.len() <= MAX_PATTERN_LEN && pattern.len() <= capture.len()
}

/// The largest lag at which `pattern` still lies inside `capture`.
pub open spec fn last_lag(pattern: Seq<i16>, capture: Seq<i16>) -> int {
    capture.len() - pattern.len()
}

/// Whether `lag` is the correlation peak: no lag correlates more, and every
/// earlier lag correlates less.
pub open spec fn is_peak(pattern: Seq<i16>, capture: Seq<i16>, lag: int) -> bool {
    &&& 0 <= lag <= last_lag(pattern, capture)
    &&& forall|other: int|
        0 <= other < lag ==> #[trigger] correlation(pattern, capture, other) < correlation(
            pattern,
            capture,
            lag,
        )
    &&& forall|other: int|
        lag <= other <= last_lag(pattern, capture) ==> #[trigger] correlation(
            pattern,
            capture,
            other,
        ) <= correlation(pattern, capture, lag)
}

/// The lag of the correlation peak.
pub open spec fn peak_lag(pattern: Seq<i16>, capture: Seq<i16>) -> int {
    choose|lag: int| is_peak(pattern, capture, lag)
}

/// The squared correlation coefficient in percent, rounded down and held to
/// at most a hundred: `100 * peak^2 / (pattern_energy * window_energy)`, and
/// zero where the correlation is not positive or an energy is zero.
pub open spec fn confidence_of(peak: int, pattern_energy: int, window_energy: int) -> nat {
    if peak <= 0 || pattern_energy <= 0 || window_energy <= 0 {
        0
    } else {
        let percent = (100 * peak * peak) / (pattern_energy * window_energy);
        if percent > 100 {
            100
        } else {
            percent as nat
        }
    }
}

/// The confidence of the match of `pattern` in `capture` at `lag`.
pub open spec fn confidence_at(pattern: Seq<i16>, capture: Seq<i16>, lag: int) -> nat {
    confidence_of(
        correlation(pattern, capture, lag),
        energy(pattern),
        energy(window(capture, lag, pattern.len())),
    )
}

/// What the detector finds: nothing where the capture cannot be searched,
/// else the correlation peak and the confidence there.
pub open spec fn detection(pattern: Seq<i16>, capture: Seq<i16>) -> Option<Detection> {
    if searchable(pattern, capture) {
        let lag = peak_lag(pattern, capture);
        Some(
            Detection {
                lag: lag as usize,
                confidence: confidence_at(pattern, capture, lag) as u32,
            },
        )
    } else {
        None
    }
}

/// Whether `capture` is `pattern` delayed by `delay` samples and nothing
/// else: silence before the pattern and silence after it.
pub open spec fn delayed_copy(pattern: Seq<i16>, capture: Seq<i16>, delay: int) -> bool {
    &&& 0 <= delay
    &&& delay + pattern.len() <= capture.len()
    &&& forall|j: int|
        0 <= j < capture.len() ==> #[trigger] capture[j] == if delay <= j < delay + pattern.len() {
            pattern[j - delay]
        } else {
            0i16
        }
}

/// A capture has at most one correlation peak.
pub proof fn lemma_peak_unique(pattern: Seq<i16>, capture: Seq<i16>, x: int, y: int)
    requires
        is_peak(pattern, capture, x),
        is_peak(pattern, capture, y),
    ensures
        x == y,
{
    if x < y {
        assert(correlation(pattern, capture, x) < correlation(pattern, capture, y));
        assert(correlation(pattern, capture, y) <= correlation(pattern, capture, x));
    } else if y < x {
        assert(correlation(pattern, capture, y) < correlation(pattern, capture, x));
        assert(correlation(pattern, capture, x) <= correlation(pattern, capture, y));
    }
}

/// The position of the first sample of `a` that is not zero.
proof fn lemma_first_audible(a: Seq<i16>, n: nat) -> (m: int)
    requires
        n <= a.len(),
        exists|i: int| 0 <= i < n && #[trigger] a[i] != 0,
    ensures
        0 <= m < n,
        a[m] != 0,
        forall|i: int| 0 <= i < m ==> #[trigger] a[i] == 0,
    decreases n,
{
    let shorter = (n - 1) as nat;
    if exists|i: int| 0 <= i < shorter && #[trigger] a[i] != 0 {
        lemma_first_audible(a, shorter)
    } else {
        let i = choose|i: int| 0 <= i < n && #[trigger] a[i] != 0;
        assert(i == n - 1);
        n - 1
    }
}

/// The position of the last sample of `a` that is not zero.
proof fn lemma_last_audible(a: Seq<i16>, from: nat) -> (m: int)
    requires
        from <= a.len(),
        exists|i: int| from <= i < a.len() && #[trigger] a[i] != 0,
    ensures
        from <= m < a.len(),
        a[m] != 0,
        forall|i: int| m < i < a.len() ==> #[trigger] a[i] == 0,
    decreases a.len() - from,
{
    if exists|i: int| from + 1 <= i < a.len() && #[trigger] a[i] != 0 {
        lemma_last_audible(a, from + 1)
    } else {
        let i = choose|i: int| from <= i < a.len() && #[trigger] a[i] != 0;
        assert(i == from);
        from as int
    }
}

/// The energy of a delayed copy is the energy of the pattern.
proof fn lemma_delayed_copy_energy(pattern: Seq<i16>, capture: Seq<i16>, delay: int)
    requires
        delayed_copy(pattern, capture, delay),
    ensures
        energy(capture) == energy(pattern),
        window(capture, delay, pattern.len()) == pattern,
{
    let n = pattern.len();
    let w = window(capture, delay, n);
    assert(w =~= pattern);
    // silence before the pattern
    lemma_energy_sign(capture, delay as nat);
    assert(dot_prefix(capture, capture, delay as nat) == 0);
    // the pattern itself
    lemma_energy_from(capture, delay, n);
    // silence after the pattern
    let rest = (capture.len() - delay - n) as nat;
    lemma_energy_from(capture, delay + n, rest);
    let tail = window(capture, delay + n, rest);
    lemma_energy_sign(tail, rest);
    assert(energy(tail) == 0);
}

/// Away from the true delay a delayed copy correlates with the pattern
/// strictly less than the pattern's energy.
proof fn lemma_off_peak(pattern: Seq<i16>, capture: Seq<i16>, delay: int, other: int)
    requires
        audible(pattern),
        delayed_copy(pattern, capture, delay),
        0 <= other <= last_lag(pattern, capture),
        other != delay,
    ensures
        correlation(pattern, capture, other) < energy(pattern),
{
    let n = pattern.len();
    let w = window(capture, other, n);
    lemma_delayed_copy_energy(pattern, capture, delay);
    lemma_window_energy(capture, other, n);
    let m = if other < delay {
        lemma_first_audible(pattern, n)
    } else {
        lemma_last_audible(pattern, 0)
    };
    assert(w[m] == capture[other + m]);
    if other < delay {
        if delay <= other + m {
            assert(pattern[other + m - delay] == 0);
        }
    } else {
        if other + m < delay + n {
            assert(pattern[other + m - delay] == 0);
        }
    }
    assert(w[m] == 0);
    assert(pattern[m] != w[m]);
    lemma_dot_below_energies(pattern, w, n);
}

/// Convergence of the detector: in a capture that is nothing but the
/// pattern delayed by `delay` samples, the correlation peak lies at `delay`
/// and the match there is perfect.
pub proof fn lemma_detects_delay(pattern: Seq<i16>, capture: Seq<i16>, delay: int)
    requires
        searchable(pattern, capture),
        audible(pattern),
        delayed_copy(pattern, capture, delay),
        capture.len() <= usize::MAX,
    ensures
        is_peak(pattern, capture, delay),
        peak_lag(pattern, capture) == delay,
        correlation(pattern, capture, delay) == energy(pattern),
        confidence_at(pattern, capture, delay) == FULL_CONFIDENCE,
        detection(pattern, capture) == Some(
            Detection { lag: delay as usize, confidence: FULL_CONFIDENCE },
        ),
{
    lemma_delayed_copy_energy(pattern, capture, delay);
    lemma_energy_sign(pattern, pattern.len());
    let e = energy(pattern);
    assert(e > 0);
    assert forall|other: int| 0 <= other <= last_lag(pattern, capture) implies #[trigger] correlation(
        pattern,
        capture,
        other,
    ) <= correlation(pattern, capture, delay) && (other != delay ==> correlation(
        pattern,
        capture,
        other,
    ) < correlation(pattern, capture, delay)) by {
        if other != delay {
            lemma_off_peak(pattern, capture, delay, other);
        }
    }
    assert(is_peak(pattern, capture, delay));
    lemma_peak_unique(pattern, capture, delay, peak_lag(pattern, capture));
    assert((100 * e * e) / (e * e) == 100) by (nonlinear_arith)
        requires
            e > 0,
    ;
}

/// Computes the confidence of a match from its three sums.
fn confidence_from(peak: i128, pattern_energy: i128, stretch_energy: i128) -> (percent: u32)
    requires
        -(MAX_PATTERN_LEN * PRODUCT_LIMIT) <= peak <= MAX_PATTERN_LEN * PRODUCT_LIMIT,
        0 <= pattern_energy <= MAX_PATTERN_LEN * PRODUCT_LIMIT,
        0 <= stretch_energy <= MAX_PATTERN_LEN * PRODUCT_LIMIT,
    ensures
        percent == confidence_of(peak as int, pattern_energy as int, stretch_energy as int),
        percent <= FULL_CONFIDENCE,
{
    if peak <= 0 || pattern_energy <= 0 || stretch_energy <= 0 {
        return 0;
    }
    let bound: i128 = 0x4000_0000_0000;
    assert(bound == MAX_PATTERN_LEN * PRODUCT_LIMIT);
    assert(0 < peak * peak <= 0x4000_0000_0000 * 0x4000_0000_0000) by (nonlinear_arith)
        requires
            0 < peak <= 0x4000_0000_0000,
    ;
    assert(0 < pattern_energy * stretch_energy <= 0x4000_0000_0000 * 0x4000_0000_0000)
        by (nonlinear_arith)
        requires
            0 < pattern_energy <= 0x4000_0000_0000,
            0 < stretch_energy <= 0x4000_0000_0000,
    ;
    let square: i128 = peak * peak;
    let scaled: i128 = 100 * square;
    let product: i128 = pattern_energy * stretch_energy;
    assert(scaled == 100 * peak * peak) by (nonlinear_arith)
        requires
            scaled == 100 * square,
            square == peak * peak,
    ;
    let percent: i128 = scaled / product;
    assert(percent >= 0) by (nonlinear_arith)
        requires
            percent == scaled / product,
            scaled >= 0,
            product > 0,
    ;
    if percent > 100 {
        100
    } else {
        percent as u32
    }
}

/// Searches `capture` for `pattern`: finds the lag at which the two
/// correlate most, the earliest such lag where several do, and rates the
/// match there. Finds nothing when the pattern is empty, longer than
/// `MAX_PATTERN_LEN` or longer than the capture.
pub fn detect(pattern: &[i16], capture: &[i16]) -> (found: Option<Detection>)
    ensures
        found == detection(pattern@, capture@),
        found is Some <==> searchable(pattern@, capture@),
        found matches Some(d) ==> {
            &&& is_peak(pattern@, capture@, d.lag as int)
            &&& d.confidence == confidence_at(pattern@, capture@, d.lag as int)
            &&& d.confidence <= FULL_CONFIDENCE
        },
{
    let n = pattern.len();
    if n == 0 || n > MAX_PATTERN_LEN || capture.len() < n {
        return None;
    }
    let last = capture.len() - n;
    let mut best_lag: usize = 0;
    let mut best: i128 = match correlate(pattern, capture, 0) {
        Some(c) => c,
        None => 0,
    };
    let mut lag: usize = 0;
    while lag < last
        invariant
            n == pattern@.len(),
            searchable(pattern@, capture@),
            last == last_lag(pattern@, capture@),
            capture@.len() <= usize::MAX,
            lag <= last,
            best_lag <= lag,
            best == correlation(pattern@, capture@, best_lag as int),
            forall|other: int|
                0 <= other < best_lag ==> #[trigger] correlation(pattern@, capture@, other) < best,
            forall|other: int|
                best_lag <= other <= lag ==> #[trigger] correlation(pattern@, capture@, other)
                    <= best,
        decreases last - lag,
    {
        lag += 1;
        let here: i128 = match correlate(pattern, capture, lag) {
            Some(c) => c,
            None => best,
        };
        if here > best {
            best = here;
            best_lag = lag;
        }
    }
    proof {
        assert(is_peak(pattern@, capture@, best_lag as int));
        lemma_peak_unique(pattern@, capture@, best_lag as int, peak_lag(pattern@, capture@));
        lemma_dot_bound(pattern@, window(capture@, best_lag as int, n as nat), n as nat);
        lemma_dot_bound(pattern@, pattern@, n as nat);
        let w = window(capture@, best_lag as int, n as nat);
        lemma_dot_bound(w, w, n as nat);
        assert(n * PRODUCT_LIMIT <= MAX_PATTERN_LEN * PRODUCT_LIMIT) by (nonlinear_arith)
            requires
                n <= MAX_PATTERN_LEN,
        ;
    }
    let pattern_energy = energy_of(pattern);
    let stretch_energy: i128 = match window_energy(capture, best_lag, n) {
        Some(e) => e,
        None => 0,
    };
    let confidence = confidence_from(best, pattern_energy, stretch_energy);
    Some(Detection { lag: best_lag, confidence })
}

} // verus!
