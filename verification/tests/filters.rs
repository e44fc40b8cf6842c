use dsp::SCALE;
use dsp::filter::biquad::BiquadFilter;
use dsp::filter::leaky::LeakyIntegrator;
use dsp::node::ProcessNode;

// Q16 unit used to write fractional sample values in fixed point.
const U: i64 = SCALE;

fn run_biquad_rc(samples: usize) -> Vec<f64> {
    // Bilinear transform of an analog RC low-pass with R*C = 1, T = 0.1 s:
    //   b = [1, 1, 0],  a = [1 + 2RC/T, 1 - 2RC/T, 0] = [21, -19, 0].
    let b: Vec<i64> = vec![1, 1, 0];
    let a: Vec<i64> = vec![21, -19, 0];
    let mut biquad_rc = BiquadFilter::new(&b, &a);
    let dig_unit_step: Vec<i64> = vec![U; samples];
    let mut digital_response: Vec<i64> = vec![0; samples];
    biquad_rc.process_buffer(&dig_unit_step, &mut digital_response);
    digital_response.iter().map(|v| *v as f64 / U as f64).collect()
}

#[test]
fn biquad_test_biquad_bilinear_rc() {
    // Analog step response of the RC filter, evaluated every T seconds,
    // compared with the digital filter's step response within 5%.
    let rc = 1.0f64;
    let t_samp = 0.1f64;
    let digital = run_biquad_rc(50);
    for i in 0..50 {
        let t = (i as f64) * t_samp;
        let analog = 1.0 - f64::exp(-t / rc);
        assert!((analog - digital[i]).abs() < 0.05);
    }
}

#[test]
fn filters_test_biquad_bilinear_rc() {
    let rc = 1.0f64;
    let t_samp = 0.1f64;
    let digital = run_biquad_rc(50);
    for i in 0..50 {
        let t = (i as f64) * t_samp;
        let analog = 1.0 - f64::exp(-t / rc);
        assert!((analog - digital[i]).abs() < 0.05);
    }
}

#[test]
fn test_biquad_split_matches_whole() {
    // State carried across a buffer boundary: processing a buffer in two
    // pieces gives the same samples as processing it whole.
    let b: Vec<i64> = vec![3, 2, 1];
    let a: Vec<i64> = vec![2, -1, 1];
    let input: Vec<i64> = vec![5 * U, -3 * U, 8 * U, 2 * U, -7 * U, U, 0, 4 * U];

    let mut whole_filter = BiquadFilter::new(&b, &a);
    let mut whole_out: Vec<i64> = vec![0; 8];
    whole_filter.process_buffer(&input, &mut whole_out);

    let mut split_filter = BiquadFilter::new(&b, &a);
    let first: Vec<i64> = input[..3].to_vec();
    let second: Vec<i64> = input[3..].to_vec();
    let mut out_a: Vec<i64> = vec![0; 3];
    let mut out_b: Vec<i64> = vec![0; 5];
    split_filter.process_buffer(&first, &mut out_a);
    split_filter.process_buffer(&second, &mut out_b);

    let mut joined = out_a.clone();
    joined.extend_from_slice(&out_b);
    assert_eq!(whole_out, joined);
}

#[test]
fn test_biquad_negative_a0_normalizes() {
    // Negating every coefficient leaves the difference equation's
    // quotients unchanged, so a negative leading coefficient gives the
    // same filter.
    let input: Vec<i64> = vec![7 * U, -2 * U, 3 * U, 9 * U];
    let mut pos = BiquadFilter::new(&vec![1, 1, 0], &vec![21, -19, 0]);
    let mut neg = BiquadFilter::new(&vec![-1, -1, 0], &vec![-21, 19, 0]);
    let mut out_pos: Vec<i64> = vec![0; 4];
    let mut out_neg: Vec<i64> = vec![0; 4];
    pos.process_buffer(&input, &mut out_pos);
    neg.process_buffer(&input, &mut out_neg);
    assert_eq!(out_pos, out_neg);
}

#[test]
fn test_buffer() {
    let mut filter = LeakyIntegrator::new(1, 10, 15 * U);
    let input_buffer: Vec<i64> = vec![10 * U, 20 * U, 100 * U];
    let mut output_buffer: Vec<i64> = vec![0; 3];

    filter.process_buffer(&input_buffer, &mut output_buffer);
    assert!((output_buffer[0] as f64 / U as f64 - 14.5).abs() < 1e-3);
    assert!((output_buffer[1] as f64 / U as f64 - 15.05).abs() < 1e-3);
    assert!((output_buffer[2] as f64 / U as f64 - 23.54).abs() < 1e-2);
}

#[test]
fn test_leaky_next_value() {
    let mut filter = LeakyIntegrator::new(1, 10, 16 * U);
    let out = filter.next_value(10 * U);
    assert!((out as f64 / U as f64 - 15.4).abs() < 1e-3);
}

#[test]
fn test_leaky_convergence() {
    // Feeding a constant moves the output monotonically toward it,
    // strictly while the gap exceeds the quantization dead band, and a
    // hit target is a fixed point.
    let target: i64 = 10 * U;
    let mut filter = LeakyIntegrator::new(1, 4, 100 * U);
    let mut last_gap: i64 = (100 * U - target).abs();
    for _ in 0..200 {
        let y = filter.next_value(target);
        let gap = (y - target).abs();
        assert!(gap <= last_gap);
        if last_gap > 4 {
            assert!(gap < last_gap);
        }
        last_gap = gap;
    }
    assert!(last_gap <= 4);
}
