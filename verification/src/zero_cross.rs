use vstd::prelude::*;
use crate::rational::{diff_sum, frac_eq, lemma_mul_bound, Rat};

verus! {

/// Recoverable failure of the zero-crossing estimator: fewer than two rising
/// crossings were found, so there is no spacing between crossings to measure.
/// This is an expected outcome for pathological input (a burst too short or
/// too clean of zero crossings), not a caller error.
#[derive(Clone, Copy, Debug, PartialEq, Eq, Structural)]
pub enum EstimateError {
    InsufficientCrossings,
}

/// `i` starts a rising zero crossing: the sample at `i` is negative and the
/// sample at `i + 1` is non-negative.
pub open spec fn rising_at(s: Seq<i32>, i: int) -> bool {
    s[i] < 0 && s[i + 1] >= 0
}

/// The rising-crossing start indices among `0 .. n`, in ascending order.
pub open spec fn crossings_upto(s: Seq<i32>, n: int) -> Seq<int>
    decreases n,
{
    if n <= 0 {
        Seq::empty()
    } else if rising_at(s, n - 1) {
        crossings_upto(s, n - 1).push(n - 1)
    } else {
        crossings_upto(s, n - 1)
    }
}

/// All rising-crossing start indices of the burst, in ascending order. The
/// scan covers `0 .. len - 1`: a crossing at `i` needs the sample at `i + 1`.
pub open spec fn crossing_indices(s: Seq<i32>) -> Seq<int> {
    crossings_upto(s, s.len() - 1)
}

/// Denominator of the fractional crossing position at index `i`: the sample
/// step across the crossing. Strictly positive whenever `rising_at(s, i)`
/// holds, so the interpolated position is always well defined and the
/// degenerate flat pair never divides by zero.
pub open spec fn pos_den(s: Seq<i32>, i: int) -> int {
    s[i + 1] - s[i]
}

/// Numerator of the fractional crossing position at index `i`. The position
/// itself is `pos_num / pos_den == i - s[i] / (s[i + 1] - s[i])`, the linear
/// interpolation of the instant at which the signal passes zero.
pub open spec fn pos_num(s: Seq<i32>, i: int) -> int {
    i * pos_den(s, i) - s[i]
}

/// Numerator of the exact estimated frequency. With `m` crossings at
/// positions `p_0 < ... < p_{m-1}`, the mean spacing between consecutive
/// crossing positions telescopes to `(p_{m-1} - p_0) / (m - 1)`, and the
/// frequency is the sampling rate divided by that mean. Written over the
/// integer numerators and denominators of the two end positions.
pub open spec fn crossing_freq_num(s: Seq<i32>, fs: int) -> int {
    let cs = crossing_indices(s);
    let f = cs[0];
    let l = cs[cs.len() - 1];
    fs * (cs.len() - 1) * (pos_den(s, f) * pos_den(s, l))
}

/// Denominator of the exact estimated frequency: the two end crossing
/// positions' difference `p_{m-1} - p_0`, brought to the common denominator
/// `pos_den(s, f) * pos_den(s, l)`.
pub open spec fn crossing_freq_den(s: Seq<i32>, fs: int) -> int {
    let cs = crossing_indices(s);
    let f = cs[0];
    let l = cs[cs.len() - 1];
    pos_num(s, l) * pos_den(s, f) - pos_num(s, f) * pos_den(s, l)
}

/// The interpolated crossing positions of the burst, as exact fractions.
pub open spec fn crossing_positions(s: Seq<i32>) -> Seq<(int, int)> {
    crossing_indices(s).map_values(|c: int| (pos_num(s, c), pos_den(s, c)))
}

/// The estimate is the sampling rate divided by the mean crossing spacing:
/// the fraction `crossing_freq_num / crossing_freq_den` that
/// `freq_from_crossings` returns equals `fs / (diff_sum(positions) / (m-1))`,
/// where `diff_sum` is the sum of the first differences of the `m`
/// interpolated crossing positions. The contract's closed form stands in for
/// the mean because the sum of first differences telescopes to
/// `last - first`.
pub proof fn lemma_freq_is_rate_over_mean_spacing(s: Seq<i32>, fs: int)
    requires
        crossing_indices(s).len() >= 2,
    ensures
        frac_eq(
            (crossing_freq_num(s, fs), crossing_freq_den(s, fs)),
            (
                fs * (crossing_indices(s).len() - 1) * diff_sum(crossing_positions(s)).1,
                diff_sum(crossing_positions(s)).0,
            ),
        ),
{
    let cs = crossing_indices(s);
    let ps = crossing_positions(s);
    let m = cs.len() as int;
    lemma_crossings_shape(s, s.len() - 1);
    assert forall|i: int| 0 <= i < ps.len() implies (#[trigger] ps[i]).1 > 0 by {
        assert(rising_at(s, cs[i]));
    }
    crate::rational::lemma_diff_sum_telescopes(ps);
    let ds = diff_sum(ps);
    let f = cs[0];
    let l = cs[m - 1];
    let df = pos_den(s, f);
    let dl = pos_den(s, l);
    assert(ps[0] == (pos_num(s, f), pos_den(s, f)));
    assert(ps.last() == (pos_num(s, l), pos_den(s, l)));
    assert(frac_eq(ds, (crossing_freq_den(s, fs), dl * df)));
    assert(fs * (m - 1) * (df * dl) * ds.0 == fs * (m - 1) * ds.1 * crossing_freq_den(s, fs))
        by (nonlinear_arith)
        requires
            ds.0 * (dl * df) == crossing_freq_den(s, fs) * ds.1,
    ;
}

/// Scaling every sample by one positive constant flips no sign, so the scan
/// finds the same rising crossings.
pub proof fn lemma_crossings_scale_invariant(s: Seq<i32>, s2: Seq<i32>, c: int, n: int)
    requires
        s2.len() == s.len(),
        c > 0,
        forall|i: int| 0 <= i < s.len() ==> #[trigger] s2[i] == c * s[i],
        n <= s.len() - 1,
    ensures
        crossings_upto(s2, n) == crossings_upto(s, n),
    decreases n,
{
    if n > 0 {
        lemma_crossings_scale_invariant(s, s2, c, n - 1);
        assert(s2[n - 1] < 0 <==> s[n - 1] < 0) by (nonlinear_arith)
            requires
                s2[n - 1] == c * s[n - 1],
                c > 0,
        ;
        assert(s2[n] >= 0 <==> s[n] >= 0) by (nonlinear_arith)
            requires
                s2[n] == c * s[n],
                c > 0,
        ;
    }
}

/// Scaling every sample by one positive constant leaves the estimate
/// unchanged: the same crossings are found, every interpolated position is a
/// ratio whose scale cancels, and the returned fraction denotes the same
/// frequency (each of its parts picks up the same factor `c * c`).
pub proof fn lemma_freq_scale_invariant(s: Seq<i32>, s2: Seq<i32>, c: int, fs: int)
    requires
        s2.len() == s.len(),
        c > 0,
        forall|i: int| 0 <= i < s.len() ==> #[trigger] s2[i] == c * s[i],
        crossing_indices(s).len() >= 2,
    ensures
        crossing_indices(s2) == crossing_indices(s),
        frac_eq(
            (crossing_freq_num(s2, fs), crossing_freq_den(s2, fs)),
            (crossing_freq_num(s, fs), crossing_freq_den(s, fs)),
        ),
{
    lemma_crossings_scale_invariant(s, s2, c, s.len() - 1);
    lemma_crossings_shape(s, s.len() - 1);
    let cs = crossing_indices(s);
    let m = cs.len() as int;
    let f = cs[0];
    let l = cs[m - 1];
    assert(pos_den(s2, f) == c * pos_den(s, f)) by (nonlinear_arith)
        requires
            pos_den(s2, f) == s2[f + 1] - s2[f],
            pos_den(s, f) == s[f + 1] - s[f],
            s2[f + 1] == c * s[f + 1],
            s2[f] == c * s[f],
    ;
    assert(pos_den(s2, l) == c * pos_den(s, l)) by (nonlinear_arith)
        requires
            pos_den(s2, l) == s2[l + 1] - s2[l],
            pos_den(s, l) == s[l + 1] - s[l],
            s2[l + 1] == c * s[l + 1],
            s2[l] == c * s[l],
    ;
    assert(pos_num(s2, f) == c * pos_num(s, f)) by (nonlinear_arith)
        requires
            pos_num(s2, f) == f * pos_den(s2, f) - s2[f],
            pos_num(s, f) == f * pos_den(s, f) - s[f],
            pos_den(s2, f) == c * pos_den(s, f),
            s2[f] == c * s[f],
    ;
    assert(pos_num(s2, l) == c * pos_num(s, l)) by (nonlinear_arith)
        requires
            pos_num(s2, l) == l * pos_den(s2, l) - s2[l],
            pos_num(s, l) == l * pos_den(s, l) - s[l],
            pos_den(s2, l) == c * pos_den(s, l),
            s2[l] == c * s[l],
    ;
    assert(crossing_freq_num(s2, fs) == (c * c) * crossing_freq_num(s, fs)) by (nonlinear_arith)
        requires
            crossing_freq_num(s2, fs) == fs * (m - 1) * (pos_den(s2, f) * pos_den(s2, l)),
            crossing_freq_num(s, fs) == fs * (m - 1) * (pos_den(s, f) * pos_den(s, l)),
            pos_den(s2, f) == c * pos_den(s, f),
            pos_den(s2, l) == c * pos_den(s, l),
    ;
    assert(pos_num(s2, l) * pos_den(s2, f) == (c * pos_num(s, l)) * (c * pos_den(s, f)));
    assert(pos_num(s2, f) * pos_den(s2, l) == (c * pos_num(s, f)) * (c * pos_den(s, l)));
    lemma_scale_mul(c, pos_num(s, l), pos_den(s, f));
    lemma_scale_mul(c, pos_num(s, f), pos_den(s, l));
    lemma_mul_distrib_sub(c * c, pos_num(s, l) * pos_den(s, f), pos_num(s, f) * pos_den(s, l));
    assert(crossing_freq_den(s2, fs) == (c * c) * crossing_freq_den(s, fs));
    assert(((c * c) * crossing_freq_num(s, fs)) * crossing_freq_den(s, fs) == crossing_freq_num(
        s,
        fs,
    ) * ((c * c) * crossing_freq_den(s, fs))) by (nonlinear_arith);
}

/// Shape of the crossing-index sequence: every index is in range and starts a
/// rising crossing, no two crossings are adjacent (a crossing at `i` forces
/// `s[i + 1] >= 0`, so `i + 1` cannot start one), and there are at most `n`.
pub proof fn lemma_crossings_shape(s: Seq<i32>, n: int)
    requires
        n <= s.len() - 1,
    ensures
        forall|j: int|
            0 <= j < crossings_upto(s, n).len() ==> 0 <= #[trigger] crossings_upto(s, n)[j] < n,
        forall|j: int|
            0 <= j < crossings_upto(s, n).len() ==> rising_at(s, #[trigger] crossings_upto(s, n)[j]),
        forall|j: int, k: int|
            0 <= j < k < crossings_upto(s, n).len() ==> #[trigger] crossings_upto(s, n)[j] + 2
                <= #[trigger] crossings_upto(s, n)[k],
        crossings_upto(s, n).len() <= if n >= 0 { n } else { 0 },
    decreases n,
{
    if n <= 0 {
    } else {
        lemma_crossings_shape(s, n - 1);
        let pre = crossings_upto(s, n - 1);
        if rising_at(s, n - 1) {
            assert forall|j: int| 0 <= j < pre.len() implies pre[j] + 2 <= n - 1 by {
                assert(rising_at(s, pre[j]));
                if pre[j] == n - 2 {
                    assert(s[n - 1] >= 0);
                    assert(false);
                }
            }
        }
    }
}

/// A zero-crossing frequency estimator for bursts of one fixed length,
/// configured once at construction.
pub struct ZeroCrossProcessor {
    length: usize,
}

impl ZeroCrossProcessor {
    /// The burst length this estimator was built for.
    pub closed spec fn spec_len(self) -> usize {
        self.length
    }

    pub fn new(length: usize) -> (r: ZeroCrossProcessor)
        ensures
            r.spec_len() == length,
    {
        ZeroCrossProcessor { length }
    }

    /// Estimates the dominant frequency of `signal` from the mean spacing of
    /// its interpolated rising zero crossings: the result is exactly
    /// `sampling_rate / mean_spacing` as a rational number. Fails with
    /// `InsufficientCrossings` exactly when fewer than two rising crossings
    /// exist, in which case no spacing is defined.
    ///
    /// The burst must have the configured length (anything else is a caller
    /// error), and the length cap keeps the exact products inside `i128`.
    pub fn freq_from_crossings(&self, signal: &Vec<i32>, sampling_rate: u32) -> (r: Result<
        Rat,
        EstimateError,
    >)
        requires
            signal@.len() == self.spec_len(),
            2 <= self.spec_len() <= crate::MAX_BURST_LEN,
            sampling_rate >= 1,
        ensures
            r is Err <==> crossing_indices(signal@).len() < 2,
            r is Err ==> r == Err::<Rat, EstimateError>(EstimateError::InsufficientCrossings),
            r matches Ok(q) ==> q.wf() && q.num > 0 && q.num == crossing_freq_num(
                signal@,
                sampling_rate as int,
            ) && q.den == crossing_freq_den(signal@, sampling_rate as int),
    {
        let crossings = rising_crossings(signal);
        let m = crossings.len();
        if m < 2 {
            return Err(EstimateError::InsufficientCrossings);
        }
        proof {
            lemma_crossings_shape(signal@, signal@.len() - 1);
        }
        let fi = crossings[0];
        let li = crossings[m - 1];
        let sf: i32 = signal[fi];
        let sf1: i32 = signal[fi + 1];
        let sl: i32 = signal[li];
        let sl1: i32 = signal[li + 1];
        let df: i128 = sf1 as i128 - sf as i128;
        let dl: i128 = sl1 as i128 - sl as i128;
        proof {
            assert(df == pos_den(signal@, fi as int));
            assert(dl == pos_den(signal@, li as int));
            assert(1 <= df <= 0xFFFF_FFFF);
            assert(1 <= dl <= 0xFFFF_FFFF);
            lemma_mul_bound(fi as int, df as int, crate::MAX_BURST_LEN as int, 0xFFFF_FFFF);
            lemma_mul_bound(li as int, dl as int, crate::MAX_BURST_LEN as int, 0xFFFF_FFFF);
        }
        let pf: i128 = fi as i128 * df - sf as i128;
        let pl: i128 = li as i128 * dl - sl as i128;
        proof {
            assert(pf == pos_num(signal@, fi as int));
            assert(pl == pos_num(signal@, li as int));
            assert(0 < pf <= 0x1000_0000_8000_0000) by {
                assert(1 <= -(sf as int) <= 0x8000_0000);
            }
            assert(0 < pl <= 0x1000_0000_8000_0000);
            lemma_mul_bound(pf as int, dl as int, 0x1000_0000_8000_0000, 0xFFFF_FFFF);
            lemma_mul_bound(pl as int, df as int, 0x1000_0000_8000_0000, 0xFFFF_FFFF);
        }
        let den: i128 = pl * df - pf * dl;
        proof {
            assert(li as int >= fi as int + 2);
            assert(den > 0) by (nonlinear_arith)
                requires
                    den == pl * df - pf * dl,
                    pf == fi as int * df + (-(sf as int)),
                    pl == li as int * dl + (-(sl as int)),
                    1 <= -(sf as int) <= df,
                    1 <= -(sl as int),
                    1 <= df,
                    1 <= dl,
                    li as int >= fi as int + 2,
                    fi >= 0,
            ;
            lemma_mul_bound(df as int, dl as int, 0xFFFF_FFFF, 0xFFFF_FFFF);
            lemma_mul_bound(
                sampling_rate as int,
                m as int - 1,
                0xFFFF_FFFF,
                crate::MAX_BURST_LEN as int,
            );
            lemma_mul_bound(
                sampling_rate as int * (m as int - 1),
                df as int * dl as int,
                0xFFFF_FFFF * crate::MAX_BURST_LEN as int,
                0xFFFF_FFFFint * 0xFFFF_FFFF,
            );
        }
        let num: i128 = sampling_rate as i128 * (m as i128 - 1) * (df * dl);
        proof {
            assert(num > 0) by (nonlinear_arith)
                requires
                    num == sampling_rate as int * (m as int - 1) * (df * dl),
                    sampling_rate >= 1,
                    m >= 2,
                    df >= 1,
                    dl >= 1,
            ;
        }
        Ok(Rat { num, den })
    }
}

/// Scaling both factors by `c` scales the product by `c * c`.
proof fn lemma_scale_mul(c: int, x: int, y: int)
    by (nonlinear_arith)
    ensures
        (c * x) * (c * y) == (c * c) * (x * y),
{
}

/// Multiplication distributes over the difference.
proof fn lemma_mul_distrib_sub(k: int, a: int, b: int)
    by (nonlinear_arith)
    ensures
        k * a - k * b == k * (a - b),
{
}

/// Collects the rising-crossing start indices of the burst, in ascending
/// order: exactly the indices `i` with `signal[i] < 0 <= signal[i + 1]`.
pub fn rising_crossings(signal: &Vec<i32>) -> (r: Vec<usize>)
    ensures
        r@.len() == crossing_indices(signal@).len(),
        forall|j: int| 0 <= j < r@.len() ==> #[trigger] r@[j] as int == crossing_indices(signal@)[j],
        r@.len() <= signal@.len(),
{
    let n = signal.len();
    let mut r: Vec<usize> = Vec::new();
    if n == 0 {
        return r;
    }
    let mut i: usize = 0;
    while i < n - 1
        invariant
            n == signal@.len(),
            1 <= n,
            i <= n - 1,
            r@.len() == crossings_upto(signal@, i as int).len(),
            forall|j: int|
                0 <= j < r@.len() ==> #[trigger] r@[j] as int == crossings_upto(signal@, i as int)[j],
            r@.len() <= i,
        decreases n - 1 - i,
    {
        if signal[i] < 0 && signal[i + 1] >= 0 {
            r.push(i);
        }
        i += 1;
    }
    r
}

} // verus!
