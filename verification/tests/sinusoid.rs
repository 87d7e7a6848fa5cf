use freq_detect::spectral::{freq_from_spectrum, QLOG_MAX};
use freq_detect::rational::Rat;
use freq_detect::zero_cross::ZeroCrossProcessor;
use realfft::RealFftPlanner;

/// Fixed-point scale for quantised log magnitudes: the parabolic apex is a
/// ratio of log differences, so any one scale works; finer keeps more of the
/// sub-bin refinement.
const QLOG_SCALE: f64 = 1048576.0;

fn rat_to_f64(r: Rat) -> f64 {
    r.num as f64 / r.den as f64
}

/// The four-term Blackman-Harris window of the given length.
fn blackman_harris_window(length: usize) -> Vec<f64> {
    let mut window: Vec<f64> = vec![0.0; length];
    let length_minus_1 = length - 1;
    for n in 0..length {
        let x = n as f64 / length_minus_1 as f64;
        window[n] = 0.35875 - 0.48829 * (2.0 * std::f64::consts::PI * x).cos()
            + 0.14128 * (4.0 * std::f64::consts::PI * x).cos()
            - 0.01168 * (6.0 * std::f64::consts::PI * x).cos();
    }
    window
}

/// Windows the burst, runs the forward real transform, and reduces each
/// complex bin to the two plain values the verified estimator consumes: an
/// order key (the bit pattern of the non-negative magnitude, which orders
/// exactly as the magnitude does) and a fixed-point log magnitude.
fn spectral_estimate(signal: &[i32], sampling_rate: u32) -> f64 {
    let length = signal.len();
    let window = blackman_harris_window(length);
    let mut planner = RealFftPlanner::<f64>::new();
    let r2c = planner.plan_fft_forward(length);
    let mut indata: Vec<f64> = signal
        .iter()
        .enumerate()
        .map(|(i, &v)| v as f64 * window[i])
        .collect();
    let mut spectrum = r2c.make_output_vec();
    r2c.process(&mut indata, &mut spectrum).unwrap();

    let mut keys: Vec<u64> = Vec::with_capacity(spectrum.len());
    let mut qlogs: Vec<i64> = Vec::with_capacity(spectrum.len());
    for bin in &spectrum {
        let norm = bin.norm();
        keys.push(norm.to_bits());
        let q = (norm.log10() * QLOG_SCALE).round();
        qlogs.push(q.clamp(-(QLOG_MAX as f64), QLOG_MAX as f64) as i64);
    }
    rat_to_f64(freq_from_spectrum(&keys, &qlogs, sampling_rate, length))
}

fn zero_crossing_estimate(signal: &[i32], sampling_rate: u32) -> f64 {
    let zc = ZeroCrossProcessor::new(signal.len());
    rat_to_f64(zc.freq_from_crossings(&signal.to_vec(), sampling_rate).unwrap())
}

fn sinusoid(n: usize, amplitude: f64, f0: f64, fs: f64) -> Vec<i32> {
    (0..n)
        .map(|i| (amplitude * (2.0 * std::f64::consts::PI * f0 * i as f64 / fs).sin()).round() as i32)
        .collect()
}

#[test]
fn window_is_symmetric_and_bounded() {
    let w = blackman_harris_window(512);
    assert!((w[0] - w[511]).abs() < 1e-12);
    for &c in &w {
        assert!(c >= -0.01 && c <= 1.0);
    }
}

#[test]
fn both_estimators_recover_a_pure_tone() {
    // A pure sinusoid away from 0 and from Nyquist: both estimators must
    // land within 1% of the true frequency.
    let fs = 100_000_000.0;
    let f0 = 5_000_000.0;
    let signal = sinusoid(512, 10000.0, f0, fs);
    let fft_est = spectral_estimate(&signal, 100_000_000);
    let zc_est = zero_crossing_estimate(&signal, 100_000_000);
    assert!((fft_est - f0).abs() / f0 < 0.01, "spectral {fft_est}");
    assert!((zc_est - f0).abs() / f0 < 0.01, "zero-crossing {zc_est}");
}

#[test]
fn spectral_estimate_is_scale_invariant() {
    // Scaling all samples by a positive constant scales every bin magnitude
    // by that constant; the peak stays put and the refinement, a ratio of
    // log differences, moves only by the log quantisation.
    let fs = 100_000_000.0;
    let signal = sinusoid(512, 2000.0, 10_000_000.0, fs);
    let scaled: Vec<i32> = signal.iter().map(|&v| 4 * v).collect();
    let a = spectral_estimate(&signal, 100_000_000);
    let b = spectral_estimate(&scaled, 100_000_000);
    assert!((a - b).abs() / a < 1e-4, "{a} vs {b}");
}

#[test]
fn end_to_end_synthetic_burst() {
    // The synthetic acquisition: 512 samples of a 10 MHz tone sampled at
    // 100 MHz with amplitude 1000. Both estimates within 2% of 10 MHz and
    // within 5% of each other.
    let fs = 100_000_000.0;
    let f0 = 10_000_000.0;
    let signal = sinusoid(512, 1000.0, f0, fs);
    let fft_est = spectral_estimate(&signal, 100_000_000);
    let zc_est = zero_crossing_estimate(&signal, 100_000_000);
    assert!((fft_est - f0).abs() / f0 < 0.02, "spectral {fft_est}");
    assert!((zc_est - f0).abs() / f0 < 0.02, "zero-crossing {zc_est}");
    assert!((fft_est - zc_est).abs() / zc_est < 0.05);
}
