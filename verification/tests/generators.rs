use dsp::SCALE;
use dsp::generator::{impulse, step, synth, Impulse, Sawtooth, Sinusoid, Square, Step};
use dsp::node::SourceNode;

const U: i64 = SCALE;

// One period of sin(2*pi*freq*n/rate), scaled to amplitude U.
fn sine_table(freq: f64, rate: usize) -> Vec<i64> {
    (0..rate)
        .map(|n| {
            let v = f64::sin(2.0 * std::f64::consts::PI * freq * n as f64 / rate as f64);
            (v * U as f64).round() as i64
        })
        .collect()
}

#[test]
fn test_impulse() {
    let v = impulse(4, 0, 4);
    assert!(v.data.len() == 4);
    assert!(v.data == vec![1, 0, 0, 0]);
    let w = impulse(100, 2, 100);
    assert_eq!(w.data[0], 0);
    assert_eq!(w.data[1], 0);
    assert_eq!(w.data[2], 1);
    assert_eq!(w.data[3], 0);
}

#[test]
fn test_step_signal() {
    let signal = step(10, 2, 5);
    assert_eq!(signal.data[0], 0);
    assert_eq!(signal.data[1], 0);
    assert_eq!(signal.data[2], 1);
    assert_eq!(signal.data[3], 1);
}

#[test]
fn test_impulse_source() {
    let mut signal = Impulse::new();
    let mut buffer: Vec<i64> = vec![2; 100];
    let count = signal.write_buffer(&mut buffer);
    assert_eq!(count, 100);
    assert_eq!(buffer[0], 1);
    assert_eq!(buffer[1], 0);
    assert_eq!(buffer[2], 0);
    // The impulse is sent exactly once; later buffers are all zero.
    signal.write_buffer(&mut buffer);
    assert!(buffer.iter().all(|v| *v == 0));
}

#[test]
fn test_step_source() {
    let mut signal = Step::new(2);
    let mut buffer: Vec<i64> = vec![2; 100];
    signal.write_buffer(&mut buffer);
    assert_eq!(buffer[0], 0);
    assert_eq!(buffer[1], 0);
    assert_eq!(buffer[2], 1);
    assert_eq!(buffer[3], 1);
}

#[test]
fn test_step_source_across_buffers() {
    let mut signal = Step::new(5);
    let mut buffer: Vec<i64> = vec![9; 3];
    signal.write_buffer(&mut buffer);
    assert_eq!(buffer, vec![0, 0, 0]);
    signal.write_buffer(&mut buffer);
    assert_eq!(buffer, vec![0, 0, 1]);
}

#[test]
fn generator_test_sine_small_buffer() {
    let mut signal = Sinusoid::new(sine_table(2.0, 8));
    let mut buffer: Vec<i64> = vec![0; 3];
    signal.write_buffer(&mut buffer);

    assert_eq!(buffer[0], 0);
    assert_eq!(buffer[1], U);
    assert_eq!(buffer[2], 0);

    signal.write_buffer(&mut buffer);
    assert_eq!(buffer[0], -U);
    assert_eq!(buffer[1], 0);
    assert_eq!(buffer[2], U);
}

#[test]
fn generator_test_sine_large_buffer() {
    let mut signal = Sinusoid::new(sine_table(2.0, 8));
    let mut buffer: Vec<i64> = vec![0; 10];
    signal.write_buffer(&mut buffer);
    signal.write_buffer(&mut buffer);
    assert_eq!(buffer[0], 0);
    assert_eq!(buffer[1], -U);
    assert_eq!(buffer[2], 0);
    assert_eq!(buffer[3], U);
}

#[test]
fn test_sawtooth_values() {
    let mut signal = Sawtooth::new(4, 16);
    let mut buffer: Vec<i64> = vec![0; 10];
    signal.write_buffer(&mut buffer);
    assert_eq!(buffer[0], -U);
    assert_eq!(buffer[1], -U / 2);
    assert_eq!(buffer[2], 0);
    assert_eq!(buffer[3], U / 2);
    assert_eq!(buffer[4], -U);
}

#[test]
fn test_square_values() {
    let mut signal = Square::new(4, 16);
    let mut buffer: Vec<i64> = vec![0; 10];
    signal.write_buffer(&mut buffer);
    assert_eq!(buffer[0], U);
    assert_eq!(buffer[1], U);
    assert_eq!(buffer[2], -U);
    assert_eq!(buffer[3], -U);
    assert_eq!(buffer[4], U);
}

#[test]
fn test_synth_mixes() {
    let components: Vec<Vec<i64>> = vec![vec![1, 2, 3], vec![10, 20, 30]];
    let s = synth(&components, 3, 8);
    assert_eq!(s.data, vec![11, 22, 33]);
    assert_eq!(s.sample_rate, 8);
}

#[test]
fn test_synth_empty() {
    let components: Vec<Vec<i64>> = Vec::new();
    let s = synth(&components, 4, 8);
    assert_eq!(s.data, vec![0, 0, 0, 0]);
}
