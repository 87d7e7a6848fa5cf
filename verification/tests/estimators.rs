use freq_detect::rational::Rat;
use freq_detect::spectral::{freq_from_spectrum, peak_index};
use freq_detect::stats::{summarize, StatsError, Summary};
use freq_detect::zero_cross::{rising_crossings, EstimateError, ZeroCrossProcessor};

fn rat_to_f64(r: Rat) -> f64 {
    r.num as f64 / r.den as f64
}

#[test]
fn crossings_of_square_wave() {
    // Rising crossings at 0, 2 and 4: the sample is negative there and
    // non-negative one step later.
    let signal: Vec<i32> = vec![-2, 2, -2, 2, -2, 2];
    let idx = rising_crossings(&signal);
    assert_eq!(idx, vec![0, 2, 4]);
}

#[test]
fn crossings_of_constant_positive_signal() {
    let signal: Vec<i32> = vec![5, 5, 5, 5];
    let idx = rising_crossings(&signal);
    assert!(idx.is_empty());
}

#[test]
fn square_wave_exact_frequency() {
    // Crossing positions interpolate to 0.5, 2.5 and 4.5, so the mean
    // spacing is exactly 2 samples and the frequency is fs / 2. The exact
    // rational comes out unreduced as (fs * 2 * 16) / 64.
    let signal: Vec<i32> = vec![-2, 2, -2, 2, -2, 2];
    let zc = ZeroCrossProcessor::new(6);
    let r = zc.freq_from_crossings(&signal, 100).unwrap();
    assert_eq!(r.num, 3200);
    assert_eq!(r.den, 64);
    assert_eq!(rat_to_f64(r), 50.0);
}

#[test]
fn crossing_onto_exact_zero() {
    // The second sample of each crossing pair is exactly zero, so the
    // interpolated position lands on the integer index i + 1: positions 1
    // and 3, spacing 2, frequency fs / 2.
    let signal: Vec<i32> = vec![-4, 0, -4, 0];
    let zc = ZeroCrossProcessor::new(4);
    let r = zc.freq_from_crossings(&signal, 100).unwrap();
    assert_eq!(rat_to_f64(r), 50.0);
}

#[test]
fn single_crossing_is_insufficient() {
    // Exactly one rising crossing: the estimator must fail with the
    // insufficient-data condition, not crash and not answer.
    let signal: Vec<i32> = vec![-1, -1, -1, 1, 1, 1];
    assert_eq!(rising_crossings(&signal).len(), 1);
    let zc = ZeroCrossProcessor::new(6);
    let r = zc.freq_from_crossings(&signal, 1000);
    assert_eq!(r, Err(EstimateError::InsufficientCrossings));
}

#[test]
fn no_crossing_is_insufficient() {
    let signal: Vec<i32> = vec![1, 2, 3, 4];
    let zc = ZeroCrossProcessor::new(4);
    assert_eq!(
        zc.freq_from_crossings(&signal, 1000),
        Err(EstimateError::InsufficientCrossings)
    );
}

#[test]
fn zero_cross_scale_invariance() {
    // Scaling every sample by a positive constant moves every interpolated
    // crossing position not at all, so the estimate is identical.
    let signal: Vec<i32> = vec![-3, 1, 2, -5, -2, 4, 1, -3, 2, 2];
    let scaled: Vec<i32> = signal.iter().map(|&v| 7 * v).collect();
    let zc = ZeroCrossProcessor::new(10);
    let a = zc.freq_from_crossings(&signal, 44100).unwrap();
    let b = zc.freq_from_crossings(&scaled, 44100).unwrap();
    assert_eq!(rat_to_f64(a), rat_to_f64(b));
}

#[test]
fn peak_first_occurrence_wins() {
    let keys: Vec<u64> = vec![3, 7, 7, 1];
    assert_eq!(peak_index(&keys), 1);
}

#[test]
fn peak_of_all_equal_keys_is_first() {
    let keys: Vec<u64> = vec![4, 4, 4];
    assert_eq!(peak_index(&keys), 0);
}

#[test]
fn peak_order_invariance() {
    // The peak search reads only the relative order of the keys: any
    // strictly monotone re-encoding leaves the winning index unchanged.
    let keys: Vec<u64> = vec![10, 250, 30, 250, 5];
    let re_encoded: Vec<u64> = keys.iter().map(|&k| 1000 * k + 17).collect();
    assert_eq!(peak_index(&keys), peak_index(&re_encoded));
}

#[test]
fn interior_peak_refines_exactly() {
    // Peak at bin 1 of a 3-bin spectrum (burst length 4). The parabolic
    // apex is 1 + 0.5 * (10 - 20) / (10 - 2*30 + 20) = 7/6, so the
    // frequency is fs * (7/6) / 4, which sign-normalises to 7000 / 240.
    let keys: Vec<u64> = vec![1, 5, 2];
    let qlogs: Vec<i64> = vec![10, 30, 20];
    let r = freq_from_spectrum(&keys, &qlogs, 100, 4);
    assert_eq!(r.num, 7000);
    assert_eq!(r.den, 240);
}

#[test]
fn flat_triple_skips_refinement() {
    // prev - 2*curr + next == 0: the degenerate denominator skips the
    // refinement and the integer bin index is used unrefined.
    let keys: Vec<u64> = vec![1, 5, 2];
    let qlogs: Vec<i64> = vec![10, 20, 30];
    let r = freq_from_spectrum(&keys, &qlogs, 100, 4);
    assert_eq!(r.num, 100);
    assert_eq!(r.den, 4);
}

#[test]
fn edge_peak_is_not_refined() {
    // Peak at bin 0: no neighbour on the left, so no interpolation.
    let keys: Vec<u64> = vec![9, 1, 2];
    let qlogs: Vec<i64> = vec![50, 10, 20];
    let r = freq_from_spectrum(&keys, &qlogs, 100, 4);
    assert_eq!(r.num, 0);
    assert_eq!(r.den, 4);
}

#[test]
fn spectrum_shift_and_rescale_invariance() {
    // Re-encoding the keys monotonically and shifting every log magnitude
    // by one constant (what scaling all samples does) keeps the estimate.
    let keys: Vec<u64> = vec![1, 5, 2, 4, 1];
    let qlogs: Vec<i64> = vec![-40, 120, 80, 90, -55];
    let keys2: Vec<u64> = keys.iter().map(|&k| 3 * k + 1).collect();
    let qlogs2: Vec<i64> = qlogs.iter().map(|&q| q + 1000).collect();
    let a = freq_from_spectrum(&keys, &qlogs, 48000, 8);
    let b = freq_from_spectrum(&keys2, &qlogs2, 48000, 8);
    assert_eq!(a, b);
}

#[test]
fn summary_of_single_estimate() {
    // summarize([x]) is exactly (x, 0): the mean is x and the spread zero.
    let s: Summary = summarize(&vec![42]).unwrap();
    assert_eq!(s.mean.num, 42);
    assert_eq!(s.mean.den, 1);
    assert_eq!(s.variance.num, 0);
    assert_eq!(rat_to_f64(s.variance).sqrt(), 0.0);
}

#[test]
fn summary_of_empty_batch_fails() {
    let r = summarize(&vec![]);
    assert_eq!(r, Err(StatsError::EmptyInput));
}

#[test]
fn summary_exact_mean_and_variance() {
    // total = 18, mean = 18/3 = 6; squared deviations (scaled by n^2):
    // (9-18)^2 + (15-18)^2 + (30-18)^2 = 81 + 9 + 144 = 234 over n^3 = 27,
    // i.e. variance 234/27 and standard deviation sqrt(26/3).
    let s = summarize(&vec![3, 5, 10]).unwrap();
    assert_eq!(s.mean.num, 18);
    assert_eq!(s.mean.den, 3);
    assert_eq!(s.variance.num, 234);
    assert_eq!(s.variance.den, 27);
    let std_dev = rat_to_f64(s.variance).sqrt();
    assert!((std_dev - (26.0f64 / 3.0).sqrt()).abs() < 1e-12);
}
