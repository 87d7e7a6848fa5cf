use vstd::prelude::*;
use crate::rational::{lemma_mul_abs_bound, lemma_mul_bound, spec_sign_norm, Rat};

verus! {

/// Index of the first maximum among the first `n` keys (index order,
/// ascending scan, strict comparison: ties keep the earlier index).
pub open spec fn peak_upto(keys: Seq<u64>, n: int) -> int
    decreases n,
{
    if n <= 1 {
        0
    } else if keys[n - 1] > keys[peak_upto(keys, n - 1)] {
        n - 1
    } else {
        peak_upto(keys, n - 1)
    }
}

/// Index of the spectral peak: the first bin whose key is maximal.
pub open spec fn peak_of(keys: Seq<u64>) -> int {
    peak_upto(keys, keys.len() as int)
}

/// The peak index is in range, carries a maximal key, and is the first index
/// to do so.
pub proof fn lemma_peak_shape(keys: Seq<u64>, n: int)
    requires
        1 <= n <= keys.len(),
    ensures
        0 <= peak_upto(keys, n) < n,
        forall|j: int| 0 <= j < n ==> #[trigger] keys[j] <= keys[peak_upto(keys, n)],
        forall|j: int| 0 <= j < peak_upto(keys, n) ==> #[trigger] keys[j] < keys[peak_upto(keys, n)],
    decreases n,
{
    if n > 1 {
        lemma_peak_shape(keys, n - 1);
    }
}

/// The peak search reads nothing of the keys but their relative order: any
/// two key sequences that order every pair of bins the same way have the same
/// peak index. In particular, scaling every magnitude by one positive factor
/// leaves the peak where it was.
pub proof fn lemma_peak_order_invariant(keys1: Seq<u64>, keys2: Seq<u64>, n: int)
    requires
        keys1.len() == keys2.len(),
        n <= keys1.len(),
        forall|i: int, j: int|
            #![trigger keys1[i], keys1[j]]
            0 <= i < keys1.len() && 0 <= j < keys1.len() ==> (keys1[i] > keys1[j] <==> keys2[i]
                > keys2[j]),
    ensures
        peak_upto(keys1, n) == peak_upto(keys2, n),
    decreases n,
{
    if n > 1 {
        lemma_peak_order_invariant(keys1, keys2, n - 1);
        lemma_peak_shape(keys1, n - 1);
        let p = peak_upto(keys1, n - 1);
        assert(keys1[n - 1] > keys1[p] <==> keys2[n - 1] > keys2[p]);
    }
}

/// The exact refined estimate as a fraction `(num, den)`. At an interior
/// peak `k` the three log-domain magnitudes around it fix a parabola whose
/// apex sits at `k + (prev - next) / (2 * (prev - 2*curr + next))`; the
/// frequency is `fs * apex / n`. A flat triple (denominator zero) and a peak
/// at either spectrum edge skip the refinement and use the integer bin, a
/// documented edge bias: no interpolation is possible there.
pub open spec fn spectrum_freq(keys: Seq<u64>, qlogs: Seq<i64>, fs: int, n: int) -> (int, int) {
    let k = peak_of(keys);
    if 0 < k < keys.len() - 1 {
        let dd = qlogs[k - 1] - 2 * qlogs[k] + qlogs[k + 1];
        if dd == 0 {
            (fs * k, n)
        } else {
            spec_sign_norm(fs * (2 * k * dd + (qlogs[k - 1] - qlogs[k + 1])), 2 * dd * n)
        }
    } else {
        (fs * k, n)
    }
}

/// The whole spectral estimate reads nothing of the magnitudes but the order
/// of the keys and the differences of the log-domain values: reordering-
/// preserving keys and a common shift `c` of every log magnitude leave the
/// estimate unchanged. Scaling all samples by a positive constant does
/// exactly that — it scales every bin magnitude by the same factor, which
/// preserves the key order and shifts every log magnitude by one constant —
/// so the returned frequency is invariant to input scaling.
pub proof fn lemma_spectrum_scale_invariant(
    keys1: Seq<u64>,
    keys2: Seq<u64>,
    qlogs1: Seq<i64>,
    qlogs2: Seq<i64>,
    c: int,
    fs: int,
    n: int,
)
    requires
        keys1.len() == keys2.len(),
        qlogs1.len() == qlogs2.len(),
        forall|i: int, j: int|
            #![trigger keys1[i], keys1[j]]
            0 <= i < keys1.len() && 0 <= j < keys1.len() ==> (keys1[i] > keys1[j] <==> keys2[i]
                > keys2[j]),
        forall|i: int| 0 <= i < qlogs1.len() ==> #[trigger] qlogs2[i] == qlogs1[i] + c,
        keys1.len() == qlogs1.len(),
        1 <= keys1.len(),
    ensures
        spectrum_freq(keys2, qlogs2, fs, n) == spectrum_freq(keys1, qlogs1, fs, n),
{
    lemma_peak_order_invariant(keys1, keys2, keys1.len() as int);
    lemma_peak_shape(keys1, keys1.len() as int);
    let k = peak_of(keys1);
    if 0 < k < keys1.len() - 1 {
        assert(qlogs2[k - 1] - 2 * qlogs2[k] + qlogs2[k + 1] == qlogs1[k - 1] - 2 * qlogs1[k]
            + qlogs1[k + 1]);
        assert(qlogs2[k - 1] - qlogs2[k + 1] == qlogs1[k - 1] - qlogs1[k + 1]);
    }
}

/// Linear scan for the first bin of maximal key. The keys stand for the bin
/// magnitudes through any order-preserving encoding, so the returned index is
/// the index of the first magnitude maximum.
pub fn peak_index(keys: &Vec<u64>) -> (r: usize)
    requires
        keys@.len() >= 1,
    ensures
        r as int == peak_of(keys@),
        r < keys@.len(),
        forall|j: int| 0 <= j < keys@.len() ==> keys@[j] <= keys@[r as int],
        forall|j: int| 0 <= j < r as int ==> keys@[j] < keys@[r as int],
{
    let n = keys.len();
    let mut best: usize = 0;
    let mut i: usize = 1;
    while i < n
        invariant
            n == keys@.len(),
            1 <= i <= n,
            0 <= best < i,
            best as int == peak_upto(keys@, i as int),
        decreases n - i,
    {
        if keys[i] > keys[best] {
            best = i;
        }
        i += 1;
    }
    proof {
        lemma_peak_shape(keys@, n as int);
    }
    best
}

/// Largest admitted magnitude of a fixed-point log magnitude. The cap keeps
/// the exact refinement products inside `i128`.
pub const QLOG_MAX: i64 = 0x1_0000_0000_0000;

/// Converts a spectrum into the refined frequency estimate, exactly as the
/// rational `spectrum_freq` describes: find the first magnitude peak, refine
/// it by a parabolic fit in the log-magnitude domain when the peak is
/// strictly interior and the fit's denominator is nonzero, and convert the
/// (possibly fractional) bin index to a frequency as
/// `sampling_rate * index / length`.
///
/// `keys` carries one order key per bin, standing for the bin magnitude
/// through any order-preserving encoding; `qlogs` carries the matching
/// log-domain magnitudes in any fixed-point scale (the parabolic apex is a
/// ratio of log differences, so the scale cancels). `length` is the
/// time-domain burst length the spectrum of `length / 2 + 1` bins came from.
pub fn freq_from_spectrum(
    keys: &Vec<u64>,
    qlogs: &Vec<i64>,
    sampling_rate: u32,
    length: usize,
) -> (r: Rat)
    requires
        keys@.len() == qlogs@.len(),
        keys@.len() == length / 2 + 1,
        2 <= length <= crate::MAX_BURST_LEN,
        sampling_rate >= 1,
        forall|i: int| 0 <= i < qlogs@.len() ==> -QLOG_MAX <= #[trigger] qlogs@[i] <= QLOG_MAX,
    ensures
        r.wf(),
        r.num == spectrum_freq(keys@, qlogs@, sampling_rate as int, length as int).0,
        r.den == spectrum_freq(keys@, qlogs@, sampling_rate as int, length as int).1,
{
    let k = peak_index(keys);
    proof {
        lemma_mul_bound(sampling_rate as int, k as int, 0xFFFF_FFFF, crate::MAX_BURST_LEN as int);
    }
    if 0 < k && k < keys.len() - 1 {
        let prev: i128 = qlogs[k - 1] as i128;
        let curr: i128 = qlogs[k] as i128;
        let next: i128 = qlogs[k + 1] as i128;
        let dd: i128 = prev - 2 * curr + next;
        if dd == 0 {
            Rat { num: sampling_rate as i128 * k as i128, den: length as i128 }
        } else {
            proof {
                assert(-0x4_0000_0000_0000 <= dd <= 0x4_0000_0000_0000);
                lemma_mul_abs_bound(2 * (k as int), dd as int, 2 * crate::MAX_BURST_LEN as int,
                    0x4_0000_0000_0000);
                lemma_mul_abs_bound(
                    sampling_rate as int,
                    2 * (k as int) * dd + (prev - next),
                    0xFFFF_FFFF,
                    0x1_0000_0000_0000_0000_0000,
                );
                lemma_mul_abs_bound(2 * dd, length as int, 0x8_0000_0000_0000,
                    crate::MAX_BURST_LEN as int);
                assert(2 * dd * (length as int) != 0) by (nonlinear_arith)
                    requires
                        dd != 0,
                        length >= 2,
                ;
            }
            let num: i128 = sampling_rate as i128 * (2 * k as i128 * dd + (prev - next));
            let den: i128 = 2 * dd * length as i128;
            Rat::new(num, den)
        }
    } else {
        Rat { num: sampling_rate as i128 * k as i128, den: length as i128 }
    }
}

} // verus!
