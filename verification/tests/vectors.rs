use dsp::complex::Complex;
use dsp::vectors::{argmax, multiply};

#[test]
fn vectors_test_multiply() {
    let v: Vec<i64> = vec![3; 5];
    let u: Vec<i64> = vec![2; 5];
    let mut output: Vec<i64> = vec![0; 5];
    multiply(&v, &u, &mut output);
    assert_eq!(output, vec![6; 5]);
}

#[test]
fn test_argmax_empty() {
    let xs: Vec<Complex> = Vec::new();
    assert_eq!(argmax(&xs), 0);
}

#[test]
fn test_argmax_picks_largest() {
    let xs = vec![
        Complex { re: 1, im: 0 },
        Complex { re: 0, im: 5 },
        Complex { re: 5, im: 0 },
    ];
    assert_eq!(argmax(&xs), 1);
}

#[test]
fn test_argmax_tie_keeps_first() {
    let xs = vec![
        Complex { re: 3, im: 0 },
        Complex { re: 0, im: 3 },
        Complex { re: -3, im: 0 },
    ];
    assert_eq!(argmax(&xs), 0);
}
