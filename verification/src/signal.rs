//! Sums over sample sequences: inner products, energies and the
//! correlation of a known pattern against a capture.

use vstd::prelude::*;

verus! {

/// The largest magnitude of a product of two samples.
pub const PRODUCT_LIMIT: i128 = 0x4000_0000;

/// The sum of `a[i] * b[i]` over the first `n` positions.
pub open spec fn dot_prefix(a: Seq<i16>, b: Seq<i16>, n: nat) -> int
    decreases n,
{
    if n == 0 {
        0
    } else {
        dot_prefix(a, b, (n - 1) as nat) + a[n - 1] * b[n - 1]
    }
}

/// The inner product of `a` with the first `a.len()` samples of `b`.
pub open spec fn dot(a: Seq<i16>, b: Seq<i16>) -> int {
    dot_prefix(a, b, a.len())
}

/// The sum of the squares of the samples of `a`.
pub open spec fn energy(a: Seq<i16>) -> int {
    dot(a, a)
}

/// The stretch of `capture` that a pattern of `len` samples covers at `lag`.
pub open spec fn window(capture: Seq<i16>, lag: int, len: nat) -> Seq<i16> {
    capture.subrange(lag, lag + len)
}

/// The correlation of `pattern` with `capture` at `lag`: the inner product
/// of the pattern with the stretch of the capture that starts `lag` samples in.
pub open spec fn correlation(pattern: Seq<i16>, capture: Seq<i16>, lag: int) -> int {
    dot(pattern, window(capture, lag, pattern.len()))
}

/// Whether `a` has a sample that is not zero.
pub open spec fn audible(a: Seq<i16>) -> bool {
    exists|i: int| 0 <= i < a.len() && #[trigger] a[i] != 0
}

/// A product of two samples is bounded by `PRODUCT_LIMIT` in magnitude.
pub proof fn lemma_product_bound(x: i16, y: i16)
    ensures
        -PRODUCT_LIMIT <= x * y <= PRODUCT_LIMIT,
{
    assert(-0x4000_0000 <= x * y <= 0x4000_0000) by (nonlinear_arith)
        requires
            -0x8000 <= x <= 0x7fff,
            -0x8000 <= y <= 0x7fff,
    ;
}

/// An inner product over `n` positions is bounded by `n` times the largest product.
pub proof fn lemma_dot_bound(a: Seq<i16>, b: Seq<i16>, n: nat)
    requires
        n <= a.len(),
        n <= b.len(),
    ensures
        -(n * PRODUCT_LIMIT) <= dot_prefix(a, b, n) <= n * PRODUCT_LIMIT,
    decreases n,
{
    if n > 0 {
        lemma_dot_bound(a, b, (n - 1) as nat);
        lemma_product_bound(a[n - 1], b[n - 1]);
    }
}

/// An inner product depends only on the positions it sums over.
pub proof fn lemma_dot_prefix_agrees(a: Seq<i16>, b: Seq<i16>, c: Seq<i16>, d: Seq<i16>, n: nat)
    requires
        n <= a.len(),
        n <= b.len(),
        n <= c.len(),
        n <= d.len(),
        forall|i: int| 0 <= i < n ==> a[i] == c[i],
        forall|i: int| 0 <= i < n ==> b[i] == d[i],
    ensures
        dot_prefix(a, b, n) == dot_prefix(c, d, n),
    decreases n,
{
    if n > 0 {
        lemma_dot_prefix_agrees(a, b, c, d, (n - 1) as nat);
    }
}

/// An energy is never negative, and it is positive exactly when some sample
/// is not zero.
pub proof fn lemma_energy_sign(a: Seq<i16>, n: nat)
    requires
        n <= a.len(),
    ensures
        dot_prefix(a, a, n) >= 0,
        dot_prefix(a, a, n) > 0 <==> exists|i: int| 0 <= i < n && #[trigger] a[i] != 0,
    decreases n,
{
    if n > 0 {
        let m = (n - 1) as nat;
        lemma_energy_sign(a, m);
        let x = a[n - 1];
        assert(x * x >= 0 && (x != 0 ==> x * x > 0) && (x == 0 ==> x * x == 0))
            by (nonlinear_arith);
        if dot_prefix(a, a, n) > 0 {
            if x != 0 {
                assert(a[n - 1] != 0);
            } else {
                let i = choose|i: int| 0 <= i < m && #[trigger] a[i] != 0;
                assert(0 <= i < n && a[i] != 0);
            }
        }
        if exists|i: int| 0 <= i < n && #[trigger] a[i] != 0 {
            let i = choose|i: int| 0 <= i < n && #[trigger] a[i] != 0;
            if i < m {
                assert(0 <= i < m && a[i] != 0);
            }
        }
    }
}

/// Twice an inner product is at most the sum of the two energies, and falls
/// short of it by at least one where the two sequences differ somewhere.
pub proof fn lemma_dot_below_energies(a: Seq<i16>, b: Seq<i16>, n: nat)
    requires
        n <= a.len(),
        n <= b.len(),
    ensures
        2 * dot_prefix(a, b, n) <= dot_prefix(a, a, n) + dot_prefix(b, b, n),
        (exists|i: int| 0 <= i < n && #[trigger] a[i] != #[trigger] b[i]) ==> 2 * dot_prefix(
            a,
            b,
            n,
        ) + 1 <= dot_prefix(a, a, n) + dot_prefix(b, b, n),
    decreases n,
{
    if n > 0 {
        let m = (n - 1) as nat;
        lemma_dot_below_energies(a, b, m);
        let x = a[n - 1];
        let y = b[n - 1];
        assert(2 * (x * y) <= x * x + y * y && (x != y ==> 2 * (x * y) + 1 <= x * x + y * y))
            by (nonlinear_arith);
        if exists|i: int| 0 <= i < n && #[trigger] a[i] != #[trigger] b[i] {
            let i = choose|i: int| 0 <= i < n && #[trigger] a[i] != #[trigger] b[i];
            if i < m {
                assert(0 <= i < m && a[i] != b[i]);
            }
        }
    }
}

/// The energy of a stretch of a sequence is at most the energy of the whole.
pub proof fn lemma_window_energy(capture: Seq<i16>, lag: int, len: nat)
    requires
        0 <= lag,
        lag + len <= capture.len(),
    ensures
        0 <= energy(window(capture, lag, len)) <= energy(capture),
{
    let w = window(capture, lag, len);
    lemma_energy_sign(w, len);
    lemma_energy_from(capture, lag, len);
    lemma_energy_sign(capture, lag as nat);
    lemma_energy_grows(capture, (lag + len) as nat, capture.len());
}

/// The energy of the first `lag + len` samples is the energy of the first
/// `lag` plus that of the `len` that follow.
pub proof fn lemma_energy_from(capture: Seq<i16>, lag: int, len: nat)
    requires
        0 <= lag,
        lag + len <= capture.len(),
    ensures
        dot_prefix(capture, capture, (lag + len) as nat) == dot_prefix(
            capture,
            capture,
            lag as nat,
        ) + energy(window(capture, lag, len)),
    decreases len,
{
    let w = window(capture, lag, len);
    if len > 0 {
        let shorter = (len - 1) as nat;
        lemma_energy_from(capture, lag, shorter);
        let v = window(capture, lag, shorter);
        lemma_dot_prefix_agrees(w, w, v, v, shorter);
        assert(w[len - 1] == capture[lag + len - 1]);
    }
}

/// The energy of a longer prefix is at least that of a shorter one.
proof fn lemma_energy_grows(a: Seq<i16>, shorter: nat, longer: nat)
    requires
        shorter <= longer <= a.len(),
    ensures
        dot_prefix(a, a, shorter) <= dot_prefix(a, a, longer),
    decreases longer - shorter,
{
    if shorter < longer {
        lemma_energy_grows(a, shorter, (longer - 1) as nat);
        let x = a[longer - 1];
        assert(x * x >= 0) by (nonlinear_arith);
    }
}

/// The inner product of `a` with the first `a.len()` samples of `b`, or
/// `None` when `b` is shorter than `a`.
pub fn inner_product(a: &[i16], b: &[i16]) -> (sum: Option<i128>)
    ensures
        sum is Some <==> a@.len() <= b@.len(),
        sum matches Some(s) ==> s == dot(a@, b@),
{
    let n = a.len();
    if b.len() < n {
        return None;
    }
    let mut acc: i128 = 0;
    let mut i: usize = 0;
    while i < n
        invariant
            n == a@.len(),
            n <= b@.len(),
            i <= n,
            acc == dot_prefix(a@, b@, i as nat),
            -(i * PRODUCT_LIMIT) <= acc <= i * PRODUCT_LIMIT,
        decreases n - i,
    {
        proof {
            lemma_product_bound(a@[i as int], b@[i as int]);
        }
        let x: i128 = a[i] as i128;
        let y: i128 = b[i] as i128;
        assert(x * y == a@[i as int] * b@[i as int]);
        acc = acc + x * y;
        i += 1;
    }
    Some(acc)
}

/// The sum of the squares of the samples of `a`.
pub fn energy_of(a: &[i16]) -> (sum: i128)
    ensures
        sum == energy(a@),
        sum >= 0,
{
    proof {
        lemma_energy_sign(a@, a@.len());
    }
    match inner_product(a, a) {
        Some(s) => s,
        None => 0,
    }
}

/// The correlation of `pattern` with `capture` at `lag`, or `None` when the
/// pattern placed at `lag` reaches past the end of the capture.
pub fn correlate(pattern: &[i16], capture: &[i16], lag: usize) -> (sum: Option<i128>)
    ensures
        sum is Some <==> lag + pattern@.len() <= capture@.len(),
        sum matches Some(s) ==> s == correlation(pattern@, capture@, lag as int),
{
    let n = pattern.len();
    if capture.len() < n || capture.len() - n < lag {
        return None;
    }
    let ghost w = window(capture@, lag as int, n as nat);
    let mut acc: i128 = 0;
    let mut i: usize = 0;
    while i < n
        invariant
            n == pattern@.len(),
            lag + n <= capture@.len() <= usize::MAX,
            w == window(capture@, lag as int, n as nat),
            i <= n,
            acc == dot_prefix(pattern@, w, i as nat),
            -(i * PRODUCT_LIMIT) <= acc <= i * PRODUCT_LIMIT,
        decreases n - i,
    {
        proof {
            lemma_product_bound(pattern@[i as int], capture@[lag + i]);
            assert(w[i as int] == capture@[lag + i]);
        }
        let x: i128 = pattern[i] as i128;
        let y: i128 = capture[lag + i] as i128;
        assert(x * y == pattern@[i as int] * w[i as int]);
        acc = acc + x * y;
        i += 1;
    }
    Some(acc)
}

/// The energy of the stretch of `capture` that `len` samples cover at `lag`,
/// or `None` when that stretch reaches past the end of the capture.
pub fn window_energy(capture: &[i16], lag: usize, len: usize) -> (sum: Option<i128>)
    ensures
        sum is Some <==> lag + len <= capture@.len(),
        sum matches Some(s) ==> s == energy(window(capture@, lag as int, len as nat)) && s >= 0,
{
    if capture.len() < len || capture.len() - len < lag {
        return None;
    }
    let ghost w = window(capture@, lag as int, len as nat);
    let mut acc: i128 = 0;
    let mut i: usize = 0;
    while i < len
        invariant
            lag + len <= capture@.len() <= usize::MAX,
            w == window(capture@, lag as int, len as nat),
            i <= len,
            acc == dot_prefix(w, w, i as nat),
            -(i * PRODUCT_LIMIT) <= acc <= i * PRODUCT_LIMIT,
        decreases len - i,
    {
        proof {
            lemma_product_bound(capture@[lag + i], capture@[lag + i]);
            assert(w[i as int] == capture@[lag + i]);
        }
        let x: i128 = capture[lag + i] as i128;
        assert(x * x == w[i as int] * w[i as int]);
        acc = acc + x * x;
        i += 1;
    }
    proof {
        lemma_energy_sign(w, len as nat);
    }
    Some(acc)
}

} // verus!
