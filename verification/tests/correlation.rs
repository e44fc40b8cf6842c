use dsp::SCALE;
use dsp::correlation::AutoCorrelation;
use dsp::node::ProcessNode;

const U: i64 = SCALE;

// Samples of sin(2*pi*n/period), scaled to a test amplitude.
fn periodic_signal(period: usize, length: usize, amplitude: f64) -> Vec<i64> {
    (0..length)
        .map(|n| {
            let v = f64::sin(2.0 * std::f64::consts::PI * (n % period) as f64 / period as f64);
            (v * amplitude).round() as i64
        })
        .collect()
}

#[test]
fn test_autocorr_self_similarity() {
    // For a signal of period 8: lag 0 normalizes to exactly one, the
    // half-period lag to exactly minus one, and the full-period lag
    // back to exactly one.
    let input = periodic_signal(8, 24, (1i64 << 15) as f64);
    let mut corr = AutoCorrelation::new(8);
    let mut output: Vec<i64> = vec![0; 16];
    corr.process_buffer(&input, &mut output);
    assert_eq!(output[0], U);
    assert_eq!(output[4], -U);
    assert_eq!(output[8], U);
    assert_eq!(output[12], -U);
}

#[test]
fn test_autocorr_sine_quarter_lags() {
    // The classic sine autocorrelation shape: 1, 0, -1, 0, 1 at
    // quarter-period lags of a period-four sinusoid.
    let input = periodic_signal(4, 16, (1i64 << 15) as f64);
    let mut corr = AutoCorrelation::new(8);
    let mut output: Vec<i64> = vec![0; 8];
    corr.process_buffer(&input, &mut output);
    assert_eq!(output[0], U);
    assert_eq!(output[1], 0);
    assert_eq!(output[2], -U);
    assert_eq!(output[3], 0);
    assert_eq!(output[4], U);
}

#[test]
fn test_autocorr_constant_signal() {
    // A constant signal has zero variance: the zero-lag value is zero
    // and the raw (all-zero) covariances are left unnormalized.
    let input: Vec<i64> = vec![7; 20];
    let mut corr = AutoCorrelation::new(4);
    let mut output: Vec<i64> = vec![5; 16];
    corr.process_buffer(&input, &mut output);
    assert_eq!(output, vec![0; 16]);
}

#[test]
fn test_autocorr_long_output_keeps_tail() {
    // An output longer than the shared region gets only the
    // min(L - W, output len) computed offsets, normalized; the tail
    // keeps whatever it held.
    let input = periodic_signal(4, 16, (1i64 << 15) as f64);
    let mut corr = AutoCorrelation::new(8);
    let mut output: Vec<i64> = vec![42; 12];
    corr.process_buffer(&input, &mut output);
    assert_eq!(output[0], U);
    assert_eq!(output[2], -U);
    assert_eq!(output[4], U);
    assert_eq!(&output[8..], &[42, 42, 42, 42]);
}

#[test]
fn test_autocorr_window_filling_input() {
    // A window as wide as the input leaves no offsets to compute; the
    // output is untouched.
    let input = periodic_signal(4, 8, (1i64 << 15) as f64);
    let mut corr = AutoCorrelation::new(8);
    let mut output: Vec<i64> = vec![42; 4];
    corr.process_buffer(&input, &mut output);
    assert_eq!(output, vec![42; 4]);
}
