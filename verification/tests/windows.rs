use dsp::SCALE;
use dsp::window::{blackman, hamming, hann, rectangular, triangular, welch};

const U: i64 = SCALE;

// Q16 table of cos(2*pi*i/(n-1)), the input of the trigonometric windows.
fn cos_table(n: usize) -> Vec<i64> {
    let span = if n <= 1 { 1.0 } else { (n - 1) as f64 };
    (0..n)
        .map(|i| {
            let c = f64::cos(2.0 * std::f64::consts::PI * i as f64 / span);
            (c * U as f64).round() as i64
        })
        .collect()
}

#[test]
fn window_test_window() {
    let win = rectangular(3);
    let frame: Vec<i64> = vec![U; 3];
    let mut output: Vec<i64> = vec![0; 3];
    win.apply(&frame, &mut output);
    assert_eq!(output, vec![U, U, U]);
}

#[test]
fn windows_test_window() {
    let win = rectangular(3);
    let frame: Vec<i64> = vec![U; 3];
    let mut output: Vec<i64> = vec![0; 3];
    win.apply(&frame, &mut output);
    assert_eq!(output, vec![U, U, U]);
}

#[test]
fn test_rectangular_identity_arbitrary() {
    // The windowing identity on an arbitrary buffer: a rectangular
    // window changes nothing at all.
    let win = rectangular(5);
    let frame: Vec<i64> = vec![5, -3, 7 * U, 0, i64::MIN / 2];
    let mut output: Vec<i64> = vec![0; 5];
    win.apply(&frame, &mut output);
    assert_eq!(output, frame);
}

#[test]
fn window_test_apply() {
    let w = triangular(1000);
    let frame: Vec<i64> = vec![U; 1000];
    let mut output: Vec<i64> = vec![0; 1000];
    w.apply(&frame, &mut output);
    let area: f64 = output.iter().map(|v| *v as f64 / U as f64).sum();
    assert!((area / 1000.0 - 0.5).abs() < 0.2);
}

#[test]
fn windows_test_apply() {
    let w = triangular(1000);
    let frame: Vec<i64> = vec![U; 1000];
    let mut output: Vec<i64> = vec![0; 1000];
    w.apply(&frame, &mut output);
    let area: f64 = output.iter().map(|v| *v as f64 / U as f64).sum();
    assert!((area / 1000.0 - 0.5).abs() < 0.2);
}

#[test]
fn test_triangular_five() {
    let w = triangular(5);
    let frame: Vec<i64> = vec![U; 5];
    let mut output: Vec<i64> = vec![0; 5];
    w.apply(&frame, &mut output);
    assert_eq!(output, vec![0, U / 2, U, U / 2, 0]);
}

#[test]
fn test_welch_five() {
    let w = welch(5);
    let frame: Vec<i64> = vec![U; 5];
    let mut output: Vec<i64> = vec![0; 5];
    w.apply(&frame, &mut output);
    assert_eq!(output, vec![0, 3 * U / 4, U, 3 * U / 4, 0]);
}

#[test]
fn test_single_sample_windows() {
    // Width-one windows must not divide by zero.
    let t = triangular(1);
    let w = welch(1);
    assert_eq!(t.as_slice(), &vec![2 * U]);
    assert_eq!(w.as_slice(), &vec![U]);
}

#[test]
fn test_hann_five() {
    let w = hann(&cos_table(5));
    let frame: Vec<i64> = vec![U; 5];
    let mut output: Vec<i64> = vec![0; 5];
    w.apply(&frame, &mut output);
    let vals: Vec<f64> = output.iter().map(|v| *v as f64 / U as f64).collect();
    let expected = [0.0, 0.5, 1.0, 0.5, 0.0];
    for i in 0..5 {
        assert!((vals[i] - expected[i]).abs() < 1e-3);
    }
}

#[test]
fn test_hamming_five() {
    let w = hamming(&cos_table(5));
    let frame: Vec<i64> = vec![U; 5];
    let mut output: Vec<i64> = vec![0; 5];
    w.apply(&frame, &mut output);
    let vals: Vec<f64> = output.iter().map(|v| *v as f64 / U as f64).collect();
    let expected = [0.0869, 0.54347825, 1.0, 0.54347825, 0.0869];
    for i in 0..5 {
        assert!((vals[i] - expected[i]).abs() < 1e-3);
    }
}

#[test]
fn test_blackman_five() {
    let w = blackman(&cos_table(5));
    let frame: Vec<i64> = vec![U; 5];
    let mut output: Vec<i64> = vec![0; 5];
    w.apply(&frame, &mut output);
    let vals: Vec<f64> = output.iter().map(|v| *v as f64 / U as f64).collect();
    let expected = [0.00687, 0.34974, 1.0, 0.34974, 0.00687];
    for i in 0..5 {
        assert!((vals[i] - expected[i]).abs() < 1e-3);
    }
}

#[test]
fn test_apply_shared_prefix() {
    // Mismatched lengths: only the prefix shared by the window, the
    // input and the output is written; the output's tail stays.
    let win = rectangular(3);
    let frame: Vec<i64> = vec![5, -7, 9, 11, 13];
    let mut output: Vec<i64> = vec![99; 4];
    win.apply(&frame, &mut output);
    assert_eq!(output, vec![5, -7, 9, 99]);
}
