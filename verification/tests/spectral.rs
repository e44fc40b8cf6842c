use dsp::SCALE;
use dsp::complex::Complex;
use dsp::fft::{fourier_base, ForwardFFT, InverseFFT};
use dsp::hilbert::from_real;
use dsp::node::ProcessNode;
use dsp::spectrum::{item_freq, max_freq};
use dsp::window::rectangular;

const U: i64 = SCALE;

// The four forward roots of unity e^(-2*pi*i*k/4) in Q16.
fn forward_twiddles_4() -> Vec<Complex> {
    vec![
        Complex { re: U, im: 0 },
        Complex { re: 0, im: -U },
        Complex { re: -U, im: 0 },
        Complex { re: 0, im: U },
    ]
}

// The four inverse roots of unity e^(+2*pi*i*k/4) in Q16.
fn inverse_twiddles_4() -> Vec<Complex> {
    vec![
        Complex { re: U, im: 0 },
        Complex { re: 0, im: U },
        Complex { re: -U, im: 0 },
        Complex { re: 0, im: -U },
    ]
}

#[test]
fn fft_test_fft() {
    let input_buffer = vec![
        Complex { re: U, im: 0 },
        Complex { re: 0, im: 0 },
        Complex { re: 0, im: 0 },
        Complex { re: 0, im: 0 },
    ];
    let mut output_buffer = vec![Complex { re: 0, im: 0 }; 4];

    let mut ft = ForwardFFT::new(forward_twiddles_4(), rectangular(4));
    ft.process_buffer(&input_buffer, &mut output_buffer);
    let expected = vec![Complex { re: U, im: 0 }; 4];
    assert_eq!(output_buffer, expected);
}

#[test]
fn freq_test_fft() {
    let v = from_real(&vec![U, 0, 0, 0]);
    let mut ft = ForwardFFT::new(forward_twiddles_4(), rectangular(4));
    let mut s = vec![Complex { re: 0, im: 0 }; 4];
    ft.process_buffer(&v, &mut s);
    assert!(s == vec![Complex { re: U, im: 0 }; 4]);
}

#[test]
fn test_round_trip() {
    // Forward-transforming an impulse yields an all-ones spectrum;
    // inverse-transforming that spectrum and dividing by N gives the
    // impulse back.  The transform itself is unnormalized.
    let impulse = vec![
        Complex { re: U, im: 0 },
        Complex { re: 0, im: 0 },
        Complex { re: 0, im: 0 },
        Complex { re: 0, im: 0 },
    ];
    let mut spectrum = vec![Complex { re: 0, im: 0 }; 4];
    let mut ft = ForwardFFT::new(forward_twiddles_4(), rectangular(4));
    ft.process_buffer(&impulse, &mut spectrum);
    assert_eq!(spectrum, vec![Complex { re: U, im: 0 }; 4]);

    let mut back = vec![Complex { re: 0, im: 0 }; 4];
    let mut ift = InverseFFT::new(inverse_twiddles_4());
    ift.process_buffer(&spectrum, &mut back);
    let n = back.len() as i64;
    let rescaled: Vec<Complex> = back
        .iter()
        .map(|c| Complex { re: c.re / n, im: c.im / n })
        .collect();
    assert_eq!(rescaled, impulse);
}

#[test]
fn test_freq_0() {
    let f = item_freq(4, 4, 0);
    assert!(f.num == 0);
}

#[test]
fn test_freq_10() {
    let f = item_freq(1024, 44100, 10);
    assert!(f.num as f64 / f.den as f64 == 430.6640625);
}

#[test]
fn test_freq_folds_past_nyquist() {
    // Index N - k is the image of index k.
    let direct = item_freq(256, 1000, 20);
    let folded = item_freq(256, 1000, 236);
    assert_eq!(direct, folded);
}

#[test]
fn freq_test_dft_base_0() {
    let xs = fourier_base(4, 0, &forward_twiddles_4());
    assert!(xs == vec![Complex { re: U, im: 0 }; 4]);
}

#[test]
fn hilbert_test_dft_base_0() {
    let xs = fourier_base(4, 0, &forward_twiddles_4());
    assert!(xs == vec![Complex { re: U, im: 0 }; 4]);
}

#[test]
fn test_bin_round_trip() {
    // A pure 20 Hz sinusoid sampled at 256 samples/s over 256 points,
    // forward-transformed by the reference FFT, must read back as
    // exactly 20 Hz from the dominant bin.
    let n = 256usize;
    let rate = 256usize;
    let freq = 20.0f32;
    let mut buffer: Vec<rustfft::num_complex::Complex32> = (0..n)
        .map(|i| {
            let phase = 2.0 * std::f32::consts::PI * freq * (i as f32) / (rate as f32);
            rustfft::num_complex::Complex32::new(phase.sin(), 0.0)
        })
        .collect();
    let mut planner = rustfft::FftPlanner::new();
    let fft = planner.plan_fft_forward(n);
    fft.process(&mut buffer);

    let amplitude = (1i64 << 20) as f32;
    let spectrum: Vec<Complex> = buffer
        .iter()
        .map(|c| Complex {
            re: (c.re * amplitude).round() as i64,
            im: (c.im * amplitude).round() as i64,
        })
        .collect();
    let f = max_freq(&spectrum, rate);
    assert_eq!(f.num, 20 * f.den);
}

#[test]
fn test_spectrum_conjugate_symmetry() {
    // For real input, bin N - k is the complex conjugate of bin k.
    let input = from_real(&vec![3 * U, U, -2 * U, 5 * U]);
    let mut ft = ForwardFFT::new(forward_twiddles_4(), rectangular(4));
    let mut s = vec![Complex { re: 0, im: 0 }; 4];
    ft.process_buffer(&input, &mut s);
    assert_eq!(s[0].im, 0);
    assert_eq!(s[2].im, 0);
    assert_eq!(s[3].re, s[1].re);
    assert_eq!(s[3].im, -s[1].im);
}
