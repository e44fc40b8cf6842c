use dsp::SCALE;
use dsp::complex::Complex;
use dsp::generator::Sinusoid;
use dsp::node::{ComplexToReal, ProcessNode, RealToComplex, SourceNode};
use dsp::signal::power;
use dsp::signalops::{AmplitudeOp, MultiplyConst};

const U: i64 = SCALE;

fn c(re: i64, im: i64) -> Complex {
    Complex { re, im }
}

#[test]
fn hilbert_test_init() {
    let v = dsp::hilbert::from_real(&vec![1, 2, 3, 4]);
    assert!(v.len() == 4);
    assert!(v == vec![c(1, 0), c(2, 0), c(3, 0), c(4, 0)]);
}

#[test]
fn hilbert_test_shift1() {
    let v = vec![c(1, 2), c(2, 3), c(3, 4), c(4, 1)];
    let v1 = dsp::hilbert::shift(&v, 1);
    assert!(v1 == vec![c(0, 0), c(1, 2), c(2, 3), c(3, 4)]);
}

#[test]
fn hilbert_test_shift2() {
    let v = dsp::hilbert::from_real(&vec![1, 2, 3, 4]);
    let v1 = dsp::hilbert::shift(&v, -1);
    assert!(v1 == vec![c(2, 0), c(3, 0), c(4, 0), c(0, 0)]);
}

#[test]
fn hilbert_test_scale() {
    let v = dsp::hilbert::from_real(&vec![1, 2, 3, 4]);
    let v1 = dsp::hilbert::scale(&v, -2);
    assert!(v1 == vec![c(-2, 0), c(-4, 0), c(-6, 0), c(-8, 0)]);
}

#[test]
fn test_add() {
    let x = vec![c(1, 2), c(2, 4), c(3, 6), c(4, 8)];
    let y = dsp::hilbert::from_real(&vec![2, 3, 4]);
    let z = dsp::hilbert::add(&x, &y);
    assert!(z == vec![c(3, 2), c(5, 4), c(7, 6), c(4, 8)]);
}

#[test]
fn hilbert_test_multiply() {
    let x = vec![c(1, 2), c(2, 4), c(3, 6), c(4, 8)];
    let y = vec![c(2, 4), c(3, 6), c(4, 1)];
    let z = dsp::hilbert::multiply(&x, &y);
    assert!(z == vec![c(-6, 8), c(-18, 24), c(6, 27)]);
}

#[test]
fn spatial_test_init() {
    let v: Vec<i64> = vec![1, 2, 3, 4];
    assert!(v.len() == 4);
    assert!(v == vec![1, 2, 3, 4]);
}

#[test]
fn spatial_test_shift1() {
    let v: Vec<i64> = vec![1, 2, 3, 4];
    let v1 = dsp::spatial::shift(&v, 1);
    assert!(v1 == vec![0, 1, 2, 3]);
}

#[test]
fn spatial_test_shift2() {
    let v: Vec<i64> = vec![1, 2, 3, 4];
    let v1 = dsp::spatial::shift(&v, -1);
    assert!(v1 == vec![2, 3, 4, 0]);
}

#[test]
fn spatial_test_scale() {
    let v: Vec<i64> = vec![1, 2, 3, 4];
    let v1 = dsp::spatial::scale(&v, -2);
    assert!(v1 == vec![-2, -4, -6, -8]);
}

#[test]
fn time_test_shift1() {
    let v = vec![c(1, 2), c(2, 3), c(3, 4), c(4, 1)];
    let v1 = dsp::hilbert::shift(&v, 1);
    assert!(v1 == vec![c(0, 0), c(1, 2), c(2, 3), c(3, 4)]);
}

#[test]
fn time_test_shift2() {
    let v = dsp::hilbert::from_real(&vec![1, 2, 3, 4]);
    let v1 = dsp::hilbert::shift(&v, -1);
    assert!(v1 == vec![c(2, 0), c(3, 0), c(4, 0), c(0, 0)]);
}

#[test]
fn test_integration() {
    let v = vec![c(1, 2), c(2, -4), c(3, -6), c(4, 8)];
    let v2 = dsp::time::integrate(&v);
    assert!(v2.len() == 4);
    assert!(v2 == vec![c(1, 2), c(3, -2), c(6, -8), c(10, 0)]);
}

#[test]
fn test_differentiation() {
    let v = vec![c(1, 2), c(2, -4), c(3, -6), c(4, 8)];
    let v2 = dsp::time::differentiate(&v);
    assert!(v2.len() == 4);
    assert!(v2 == vec![c(1, 2), c(1, -6), c(1, -2), c(1, 14)]);
}

#[test]
fn test_energy() {
    let v = vec![c(U, U), c(2 * U, -U), c(U, -U), c(U, -2 * U)];
    let e = dsp::time::energy(&v);
    assert!(e == 14 * (U as i128) * (U as i128));
}

#[test]
fn time_test_power() {
    let v = vec![c(U, U), c(2 * U, -U), c(U, -U), c(U, -2 * U)];
    let p = dsp::time::signal_power(&v);
    // 14 / 4 of a squared unit, exactly.
    assert!(p as i128 == 14 * (U as i128) * (U as i128) / 4);
}

#[test]
fn signal_test_power() {
    // A full second of a pure sinusoid carries power amplitude^2 / 2.
    let amplitude = (1i64 << 20) as f64;
    let rate = 8192usize;
    let table: Vec<i64> = (0..rate)
        .map(|n| {
            let v = f64::sin(2.0 * std::f64::consts::PI * 1000.0 * n as f64 / rate as f64);
            (v * amplitude).round() as i64
        })
        .collect();
    let mut generator = Sinusoid::new(table);
    let mut buffer: Vec<i64> = vec![0; 8192];
    generator.write_buffer(&mut buffer);
    let p = power(&buffer);
    let normalized = p as f64 / (amplitude * amplitude);
    assert!((normalized - 0.5).abs() < 1e-5);
}

#[test]
fn test_real_to_complex() {
    let node = RealToComplex::new();
    let mut node = node;
    let input: Vec<i64> = vec![3; 10];
    let mut output: Vec<Complex> = vec![c(0, 0); 10];
    node.process_buffer(&input, &mut output);
    assert_eq!(output[0], c(3, 0));
    assert_eq!(output[1], c(3, 0));
}

#[test]
fn test_complex_to_real() {
    let mut node = ComplexToReal::new();
    let input: Vec<Complex> = vec![c(4, 3); 10];
    let mut output: Vec<i64> = vec![0; 10];
    node.process_buffer(&input, &mut output);
    assert_eq!(output[0], 5);
    assert_eq!(output[1], 5);
}

#[test]
fn test_multiply_const() {
    let mut node = MultiplyConst::new(3 * U);
    let input: Vec<i64> = vec![1, 2, 3];
    let mut output: Vec<i64> = vec![0; 3];
    node.process_buffer(&input, &mut output);
    assert_eq!(output, vec![3, 6, 9]);
}

#[test]
fn test_amplitude_op() {
    let op = AmplitudeOp::new(U / 2);
    assert_eq!(op.process(10 * U), 5 * U);
}

#[test]
fn test_truncation_short_output() {
    // A 10-sample input against a 4-sample output writes exactly the
    // first four transformed samples.
    let mut node = MultiplyConst::new(2 * U);
    let input: Vec<i64> = vec![1, 2, 3, 4, 5, 6, 7, 8, 9, 10];
    let mut output: Vec<i64> = vec![99; 4];
    node.process_buffer(&input, &mut output);
    assert_eq!(output, vec![2, 4, 6, 8]);
}

#[test]
fn test_truncation_short_input() {
    // A 4-sample input against a 10-sample output leaves the output's
    // tail exactly as it was.
    let mut node = MultiplyConst::new(2 * U);
    let input: Vec<i64> = vec![1, 2, 3, 4];
    let mut output: Vec<i64> = vec![99; 10];
    node.process_buffer(&input, &mut output);
    assert_eq!(output, vec![2, 4, 6, 8, 99, 99, 99, 99, 99, 99]);
}

#[test]
fn test_add_noise_offset() {
    let v = vec![c(1, 2), c(3, 4)];
    let r = dsp::time::add_noise(&v, 10);
    assert!(r == vec![c(11, 2), c(13, 4)]);
}

#[test]
fn test_frequency_shift() {
    // A quarter-rate offset sinusoid multiplies the signal by
    // 1, 0, -1, 0, ... and the phase survives across buffers.
    let table: Vec<i64> = vec![U, 0, -U, 0];
    let mut node = dsp::freq_shift::FrequencyShift::new(table);
    let input: Vec<Complex> = vec![c(100, 50); 5];
    let mut output: Vec<Complex> = vec![c(0, 0); 5];
    node.process_buffer(&input, &mut output);
    assert_eq!(
        output,
        vec![c(100, 50), c(0, 0), c(-100, -50), c(0, 0), c(100, 50)]
    );

    let second: Vec<Complex> = vec![c(8, -8)];
    let mut out2: Vec<Complex> = vec![c(7, 7)];
    node.process_buffer(&second, &mut out2);
    assert_eq!(out2, vec![c(0, 0)]);
}
