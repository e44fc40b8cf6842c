//! Spectral transform stages.
//!
//! The forward stage applies a window, then a table-driven discrete
//! Fourier-style transform: `out[k] = sum_j in[j] * tw[(k*j) mod N] / SCALE`,
//! where `tw` is a caller-supplied table of the `N` complex roots of
//! unity in Q16 (`e^(-2*pi*i*m/N)` forward, `e^(+2*pi*i*m/N)` inverse).
//! The transform is unnormalized, exactly as the underlying discrete
//! Fourier transform: a forward/inverse round trip scales by `N`, and
//! dividing by `N` is the caller's business.

use vstd::prelude::*;
use crate::{SCALE, SAMPLE_LIMIT};
use crate::complex::Complex;
use crate::fixed::qdiv;
use crate::node::ProcessNode;
use crate::window::{Window, rectangular, welch, hann, hamming, blackman};

verus! {

/// The window kinds the forward transform can be built with.
pub enum WindowType {
    Blackman,
    Hamming,
    Hann,
    Rectangular,
    Welch,
}

/// Real part of the first `n` terms of the transform sum for bin `k`.
pub open spec fn dft_sum_re(data: Seq<Complex>, tw: Seq<Complex>, k: int, n: int) -> int
    decreases n,
{
    if n <= 0 {
        0
    } else {
        let x = data[n - 1];
        let t = tw[(k * (n - 1)) % (tw.len() as int)];
        dft_sum_re(data, tw, k, n - 1) + x.re * t.re - x.im * t.im
    }
}

/// Imaginary part of the first `n` terms of the transform sum for bin `k`.
pub open spec fn dft_sum_im(data: Seq<Complex>, tw: Seq<Complex>, k: int, n: int) -> int
    decreases n,
{
    if n <= 0 {
        0
    } else {
        let x = data[n - 1];
        let t = tw[(k * (n - 1)) % (tw.len() as int)];
        dft_sum_im(data, tw, k, n - 1) + x.re * t.im + x.im * t.re
    }
}

/// Bin `k` of the transform of `data` under twiddle table `tw`,
/// rescaled from Q16 by truncating division.
pub open spec fn dft_bin(data: Seq<Complex>, tw: Seq<Complex>, k: int) -> Complex {
    Complex {
        re: qdiv(dft_sum_re(data, tw, k, data.len() as int), SCALE as int) as i64,
        im: qdiv(dft_sum_im(data, tw, k, data.len() as int), SCALE as int) as i64,
    }
}

/// Every sample of `data` is within twice the spectral sample limit.
pub open spec fn spectral_input(data: Seq<Complex>) -> bool {
    forall|j: int| 0 <= j < data.len() ==> (#[trigger] data[j]).bounded(2 * SAMPLE_LIMIT as int)
}

/// A usable twiddle table: Q16 entries, sized for the `i128`
/// accumulator.
pub open spec fn twiddle_table(tw: Seq<Complex>) -> bool {
    &&& 0 < tw.len() <= 0x4000_0000
    &&& forall|j: int| 0 <= j < tw.len() ==> (#[trigger] tw[j]).bounded(SCALE as int)
}

/// The partial transform sums stay inside the `i128` accumulator.
proof fn lemma_dft_sum_bound(data: Seq<Complex>, tw: Seq<Complex>, k: int, n: int)
    requires
        spectral_input(data),
        twiddle_table(tw),
        0 <= n <= data.len(),
    ensures
        -(n * 0x4_0000_0000_0000) <= dft_sum_re(data, tw, k, n) <= n * 0x4_0000_0000_0000,
        -(n * 0x4_0000_0000_0000) <= dft_sum_im(data, tw, k, n) <= n * 0x4_0000_0000_0000,
    decreases n,
{
    if n > 0 {
        lemma_dft_sum_bound(data, tw, k, n - 1);
        let x = data[n - 1];
        let idx = (k * (n - 1)) % (tw.len() as int);
        vstd::arithmetic::div_mod::lemma_mod_bound(k * (n - 1), tw.len() as int);
        let t = tw[idx];
        crate::complex::lemma_product_bound_asym(
            x.re as int, t.re as int, 2 * SAMPLE_LIMIT as int, SCALE as int);
        crate::complex::lemma_product_bound_asym(
            x.im as int, t.im as int, 2 * SAMPLE_LIMIT as int, SCALE as int);
        crate::complex::lemma_product_bound_asym(
            x.re as int, t.im as int, 2 * SAMPLE_LIMIT as int, SCALE as int);
        crate::complex::lemma_product_bound_asym(
            x.im as int, t.re as int, 2 * SAMPLE_LIMIT as int, SCALE as int);
    }
}

/// The table-driven transform itself, shared by the forward and the
/// inverse stage.
fn transform(data: &Vec<Complex>, tw: &Vec<Complex>, output: &mut Vec<Complex>)
    requires
        data@.len() == tw@.len(),
        old(output)@.len() == tw@.len(),
        spectral_input(data@),
        twiddle_table(tw@),
    ensures
        final(output)@.len() == old(output)@.len(),
        forall|k: int| 0 <= k < final(output)@.len() ==> final(output)@[k] == dft_bin(data@, tw@, k),
{
    let n: usize = tw.len();
    let mut k: usize = 0;
    while k < n
        invariant
            k <= n,
            n == tw@.len() == data@.len() == output@.len() == old(output)@.len(),
            0 < n <= 0x4000_0000,
            spectral_input(data@),
            twiddle_table(tw@),
            forall|q: int| 0 <= q < k ==> output@[q] == dft_bin(data@, tw@, q),
        decreases n - k,
    {
        let mut acc_re: i128 = 0;
        let mut acc_im: i128 = 0;
        let mut j: usize = 0;
        while j < n
            invariant
                j <= n,
                k < n,
                n == tw@.len() == data@.len(),
                0 < n <= 0x4000_0000,
                spectral_input(data@),
                twiddle_table(tw@),
                acc_re as int == dft_sum_re(data@, tw@, k as int, j as int),
                acc_im as int == dft_sum_im(data@, tw@, k as int, j as int),
            decreases n - j,
        {
            proof {
                lemma_dft_sum_bound(data@, tw@, k as int, j as int);
                lemma_dft_sum_bound(data@, tw@, k as int, j + 1);
            }
            proof {
                assert(0 <= k as int * (j as int) <= 0x4000_0000 * 0x4000_0000)
                    by (nonlinear_arith)
                    requires 0 <= k as int <= 0x4000_0000, 0 <= j as int <= 0x4000_0000,
                ;
            }
            let idx: usize = (((k as u64) * (j as u64)) % (n as u64)) as usize;
            proof {
                vstd::arithmetic::div_mod::lemma_mod_bound(k as int * (j as int), n as int);
            }
            let x: Complex = data[j];
            let t: Complex = tw[idx];
            proof {
                crate::complex::lemma_product_bound_asym(
                    x.re as int, t.re as int, 2 * SAMPLE_LIMIT as int, SCALE as int);
                crate::complex::lemma_product_bound_asym(
                    x.im as int, t.im as int, 2 * SAMPLE_LIMIT as int, SCALE as int);
                crate::complex::lemma_product_bound_asym(
                    x.re as int, t.im as int, 2 * SAMPLE_LIMIT as int, SCALE as int);
                crate::complex::lemma_product_bound_asym(
                    x.im as int, t.re as int, 2 * SAMPLE_LIMIT as int, SCALE as int);
            }
            acc_re = acc_re + (x.re as i128) * (t.re as i128) - (x.im as i128) * (t.im as i128);
            acc_im = acc_im + (x.re as i128) * (t.im as i128) + (x.im as i128) * (t.re as i128);
            j = j + 1;
        }
        proof {
            lemma_dft_sum_bound(data@, tw@, k as int, n as int);
            crate::fixed::lemma_qdiv_magnitude(acc_re as int, SCALE as int);
            crate::fixed::lemma_qdiv_magnitude(acc_im as int, SCALE as int);
        }
        let out_re: i128 = acc_re / (SCALE as i128);
        let out_im: i128 = acc_im / (SCALE as i128);
        output.set(k, Complex { re: out_re as i64, im: out_im as i64 });
        k = k + 1;
    }
}

/// Base vector of the discrete Fourier transform: entry `n` of basis
/// `k` is the table root at index `(k*n) mod size`.
pub fn fourier_base(size: usize, k: usize, tw: &Vec<Complex>) -> (r: Vec<Complex>)
    requires
        tw@.len() == size,
        0 < size <= 0x4000_0000,
        k <= 0x4000_0000,
    ensures
        r@.len() == size,
        forall|n: int| 0 <= n < size ==> r@[n] == tw@[(k * n) % (size as int)],
{
    let mut vs: Vec<Complex> = Vec::new();
    let mut n: usize = 0;
    while n < size
        invariant
            n <= size,
            tw@.len() == size,
            0 < size <= 0x4000_0000,
            k <= 0x4000_0000,
            vs@.len() == n as int,
            forall|m: int| 0 <= m < n ==> vs@[m] == tw@[(k * m) % (size as int)],
        decreases size - n,
    {
        proof {
            assert(0 <= k as int * (n as int) <= 0x4000_0000 * 0x4000_0000)
                by (nonlinear_arith)
                requires 0 <= k as int <= 0x4000_0000, 0 <= n as int <= 0x4000_0000,
            ;
        }
        let idx: usize = (((k as u64) * (n as u64)) % (size as u64)) as usize;
        proof {
            vstd::arithmetic::div_mod::lemma_mod_bound(k as int * (n as int), size as int);
        }
        vs.push(tw[idx]);
        n = n + 1;
    }
    vs
}

/// Build the window table for a window kind.  The cosine table holds
/// `cos(2*pi*i/(N-1))` in Q16 and is read only by the trigonometric
/// kinds.
pub fn window_of_type(window_type: &WindowType, width: usize, cos_table: &Vec<i64>) -> (w: Window)
    requires
        width <= 0x8000_0000,
        cos_table@.len() == width,
        forall|i: int| 0 <= i < width ==> -SCALE <= #[trigger] cos_table@[i] <= SCALE,
    ensures
        w.coeffs().len() == width,
        forall|i: int|
            0 <= i < width ==> w.coeffs()[i] == match window_type {
                WindowType::Blackman => crate::window::blackman_coeff(cos_table@[i] as int),
                WindowType::Hamming => crate::window::hamming_coeff(cos_table@[i] as int),
                WindowType::Hann => crate::window::hann_coeff(cos_table@[i] as int),
                WindowType::Rectangular => SCALE as int,
                WindowType::Welch => crate::window::welch_coeff(width as int, i),
            },
{
    match window_type {
        WindowType::Blackman => blackman(cos_table),
        WindowType::Hamming => hamming(cos_table),
        WindowType::Hann => hann(cos_table),
        WindowType::Rectangular => rectangular(width),
        WindowType::Welch => welch(width),
    }
}

/// The forward spectral stage: window, then transform.
pub struct ForwardFFT {
    twiddle: Vec<Complex>,
    window: Window,
}

impl ForwardFFT {
    /// The twiddle table.
    pub closed spec fn twiddle_spec(&self) -> Seq<Complex> {
        self.twiddle@
    }

    /// The window table.
    pub closed spec fn window_spec(&self) -> Seq<i64> {
        self.window.coeffs()
    }

    /// Usable stage: matching table sizes, Q16 twiddles, window
    /// coefficients within twice full scale.
    pub open spec fn wf(&self) -> bool {
        &&& twiddle_table(self.twiddle_spec())
        &&& self.window_spec().len() == self.twiddle_spec().len()
        &&& forall|i: int|
            0 <= i < self.window_spec().len()
                ==> -2 * SCALE <= #[trigger] self.window_spec()[i] <= 2 * SCALE
    }

    /// Define a new transformation over `twiddles`, the Q16 roots of
    /// unity `e^(-2*pi*i*m/N)`, windowed by `window`.
    pub fn new(twiddles: Vec<Complex>, window: Window) -> (f: ForwardFFT)
        requires
            0 < twiddles@.len() <= 0x4000_0000,
            forall|j: int|
                0 <= j < twiddles@.len() ==> (#[trigger] twiddles@[j]).bounded(SCALE as int),
            window.coeffs().len() == twiddles@.len(),
            forall|i: int|
                0 <= i < window.coeffs().len()
                    ==> -2 * SCALE <= #[trigger] window.coeffs()[i] <= 2 * SCALE,
        ensures
            f.wf(),
            f.twiddle_spec() == twiddles@,
            f.window_spec() == window.coeffs(),
    {
        ForwardFFT { twiddle: twiddles, window }
    }

    /// The windowed form of `input`: each sample scaled by its window
    /// coefficient.
    pub open spec fn windowed(&self, input: Seq<Complex>) -> Seq<Complex> {
        Seq::new(
            input.len(),
            |i: int| Complex {
                re: qdiv(input[i].re * self.window_spec()[i], SCALE as int) as i64,
                im: qdiv(input[i].im * self.window_spec()[i], SCALE as int) as i64,
            },
        )
    }
}

impl ProcessNode<Complex, Complex> for ForwardFFT {
    open spec fn process_req(&self, input: Seq<Complex>, output: Seq<Complex>) -> bool {
        &&& self.wf()
        &&& input.len() == self.twiddle_spec().len()
        &&& output.len() == self.twiddle_spec().len()
        &&& forall|j: int| 0 <= j < input.len() ==> (#[trigger] input[j]).bounded(SAMPLE_LIMIT as int)
    }

    open spec fn process_ens(
        pre: Self,
        post: Self,
        input: Seq<Complex>,
        out_pre: Seq<Complex>,
        out_post: Seq<Complex>,
    ) -> bool {
        &&& post == pre
        &&& forall|k: int|
            0 <= k < out_post.len()
                ==> out_post[k] == dft_bin(pre.windowed(input), pre.twiddle_spec(), k)
    }

    fn process_buffer(&mut self, input: &Vec<Complex>, output: &mut Vec<Complex>) {
        let n: usize = input.len();
        let mut data: Vec<Complex> = Vec::new();
        let mut i: usize = 0;
        while i < n
            invariant
                i <= n,
                n == input@.len() == self.window_spec().len(),
                self.wf(),
                forall|j: int|
                    0 <= j < input@.len() ==> (#[trigger] input@[j]).bounded(SAMPLE_LIMIT as int),
                data@.len() == i as int,
                forall|j: int| 0 <= j < i ==> data@[j] == self.windowed(input@)[j],
                forall|j: int| 0 <= j < i ==> (#[trigger] data@[j]).bounded(2 * SAMPLE_LIMIT as int),
            decreases n - i,
        {
            let c: Complex = input[i];
            let w: i64 = self.window.as_slice()[i];
            proof {
                assert((SCALE as int) * (-2 * SAMPLE_LIMIT as int) <= c.re as int * (w as int)
                    <= (SCALE as int) * (2 * SAMPLE_LIMIT as int)) by (nonlinear_arith)
                    requires
                        -SAMPLE_LIMIT as int <= c.re as int <= SAMPLE_LIMIT as int,
                        -2 * SCALE <= w as int <= 2 * SCALE,
                        SCALE > 0,
                        SAMPLE_LIMIT > 0,
                ;
                assert((SCALE as int) * (-2 * SAMPLE_LIMIT as int) <= c.im as int * (w as int)
                    <= (SCALE as int) * (2 * SAMPLE_LIMIT as int)) by (nonlinear_arith)
                    requires
                        -SAMPLE_LIMIT as int <= c.im as int <= SAMPLE_LIMIT as int,
                        -2 * SCALE <= w as int <= 2 * SCALE,
                        SCALE > 0,
                        SAMPLE_LIMIT > 0,
                ;
                crate::fixed::lemma_qdiv_between(
                    c.re as int * (w as int), SCALE as int,
                    -2 * SAMPLE_LIMIT as int, 2 * SAMPLE_LIMIT as int);
                crate::fixed::lemma_qdiv_between(
                    c.im as int * (w as int), SCALE as int,
                    -2 * SAMPLE_LIMIT as int, 2 * SAMPLE_LIMIT as int);
            }
            let re: i64 = crate::fixed::mul_div_q(c.re, w, SCALE);
            let im: i64 = crate::fixed::mul_div_q(c.im, w, SCALE);
            data.push(Complex { re, im });
            i = i + 1;
        }
        proof {
            assert(data@ =~= self.windowed(input@));
        }
        transform(&data, &self.twiddle, output);
    }
}

/// The inverse spectral stage: the same table-driven transform, run
/// over the inverse roots of unity, with no window and no `1/N`
/// normalization.
pub struct InverseFFT {
    twiddle: Vec<Complex>,
}

impl InverseFFT {
    /// The twiddle table.
    pub closed spec fn twiddle_spec(&self) -> Seq<Complex> {
        self.twiddle@
    }

    /// Usable stage: a Q16 twiddle table.
    pub open spec fn wf(&self) -> bool {
        twiddle_table(self.twiddle_spec())
    }

    /// Define a new inverse transformation over `twiddles`, the Q16
    /// roots of unity `e^(+2*pi*i*m/N)`.
    pub fn new(twiddles: Vec<Complex>) -> (f: InverseFFT)
        requires
            0 < twiddles@.len() <= 0x4000_0000,
            forall|j: int|
                0 <= j < twiddles@.len() ==> (#[trigger] twiddles@[j]).bounded(SCALE as int),
        ensures
            f.wf(),
            f.twiddle_spec() == twiddles@,
    {
        InverseFFT { twiddle: twiddles }
    }
}

impl ProcessNode<Complex, Complex> for InverseFFT {
    open spec fn process_req(&self, input: Seq<Complex>, output: Seq<Complex>) -> bool {
        &&& self.wf()
        &&& input.len() == self.twiddle_spec().len()
        &&& output.len() == self.twiddle_spec().len()
        &&& forall|j: int|
            0 <= j < input.len() ==> (#[trigger] input[j]).bounded(2 * SAMPLE_LIMIT as int)
    }

    open spec fn process_ens(
        pre: Self,
        post: Self,
        input: Seq<Complex>,
        out_pre: Seq<Complex>,
        out_post: Seq<Complex>,
    ) -> bool {
        &&& post == pre
        &&& forall|k: int|
            0 <= k < out_post.len() ==> out_post[k] == dft_bin(input, pre.twiddle_spec(), k)
    }

    fn process_buffer(&mut self, input: &Vec<Complex>, output: &mut Vec<Complex>) {
        transform(input, &self.twiddle, output);
    }
}

} // verus!

verus! {

/// The table holds conjugate-symmetric roots: entry `(N - m) mod N` is
/// the conjugate of entry `m`, as every table of the roots of unity is.
pub open spec fn conjugate_symmetric(tw: Seq<Complex>) -> bool {
    forall|m: int|
        0 <= m < tw.len() ==> {
            &&& (#[trigger] tw[(tw.len() - m) % (tw.len() as int)]).re == tw[m].re
            &&& tw[(tw.len() - m) % (tw.len() as int)].im as int == -(tw[m].im as int)
        }
}

/// Every sample of the signal is real: its imaginary part is zero.
pub open spec fn real_signal(data: Seq<Complex>) -> bool {
    forall|j: int| 0 <= j < data.len() ==> (#[trigger] data[j]).im == 0
}

/// Mirroring the bin mirrors every table index the sum reads:
/// `((N - k) mod N) * j` and `k * j` land on indices that add up to
/// zero modulo `N`.
proof fn lemma_mirror_index(nlen: int, k: int, j: int)
    requires
        nlen >= 1,
        0 <= k < nlen,
        0 <= j,
    ensures
        (((nlen - k) % nlen) * j) % nlen == (nlen - (k * j) % nlen) % nlen,
{
    vstd::arithmetic::div_mod::lemma_mul_mod_noop_left(nlen - k, j, nlen);
    vstd::arithmetic::div_mod::lemma_mod_multiples_vanish(j, -(k * j), nlen);
    assert((nlen - k) * j == nlen * j + (-(k * j))) by (nonlinear_arith);
    let x1 = (k * j) % nlen;
    let q = (k * j) / nlen;
    vstd::arithmetic::div_mod::lemma_fundamental_div_mod(k * j, nlen);
    vstd::arithmetic::div_mod::lemma_mod_bound(k * j, nlen);
    vstd::arithmetic::div_mod::lemma_mod_multiples_vanish(-q, -x1, nlen);
    assert(-(k * j) == nlen * (-q) + (-x1)) by (nonlinear_arith)
        requires k * j == nlen * q + x1,
    ;
    vstd::arithmetic::div_mod::lemma_mod_multiples_vanish(1, -x1, nlen);
    assert(nlen - x1 == nlen * 1 + (-x1));
}

/// For a real signal under a conjugate-symmetric table, the partial
/// sums of the mirrored bin are the conjugates of the original's.
proof fn lemma_dft_sums_conjugate(data: Seq<Complex>, tw: Seq<Complex>, k: int, n: int)
    requires
        data.len() == tw.len(),
        0 < tw.len(),
        0 <= k < tw.len(),
        0 <= n <= data.len(),
        conjugate_symmetric(tw),
        real_signal(data),
    ensures
        ({
            let kk = (tw.len() - k) % (tw.len() as int);
            &&& dft_sum_re(data, tw, kk, n) == dft_sum_re(data, tw, k, n)
            &&& dft_sum_im(data, tw, kk, n) == -dft_sum_im(data, tw, k, n)
        }),
    decreases n,
{
    let nlen = tw.len() as int;
    let kk = (nlen - k) % nlen;
    if n > 0 {
        lemma_dft_sums_conjugate(data, tw, k, n - 1);
        let j = n - 1;
        lemma_mirror_index(nlen, k, j);
        let x1 = (k * j) % nlen;
        vstd::arithmetic::div_mod::lemma_mod_bound(k * j, nlen);
        assert(tw[(nlen - x1) % nlen].re == tw[x1].re
            && tw[(nlen - x1) % nlen].im as int == -(tw[x1].im as int));
        let x = data[j];
        assert(x.im == 0);
        assert(x.re * (tw[(kk * j) % nlen].im as int) == -(x.re * (tw[x1].im as int)))
            by (nonlinear_arith)
            requires tw[(kk * j) % nlen].im as int == -(tw[x1].im as int),
        ;
    }
}

/// Law (spectrum symmetry): for a real signal transformed under a
/// conjugate-symmetric twiddle table, bin `(N - k) mod N` is the
/// complex conjugate of bin `k` — the two indices are images of one
/// physical frequency.  The size bound keeps every bin value exactly
/// representable as a sample.
pub proof fn lemma_dft_conjugate_symmetry(data: Seq<Complex>, tw: Seq<Complex>, k: int)
    requires
        data.len() == tw.len(),
        data.len() < 0x2000_0000,
        twiddle_table(tw),
        spectral_input(data),
        conjugate_symmetric(tw),
        real_signal(data),
        0 <= k < tw.len(),
    ensures
        ({
            let kk = (tw.len() - k) % (tw.len() as int);
            &&& dft_bin(data, tw, kk).re == dft_bin(data, tw, k).re
            &&& dft_bin(data, tw, kk).im as int == -(dft_bin(data, tw, k).im as int)
        }),
{
    let nlen = tw.len() as int;
    let kk = (nlen - k) % nlen;
    lemma_dft_sums_conjugate(data, tw, k, data.len() as int);
    lemma_dft_sum_bound(data, tw, k, data.len() as int);
    let n = data.len() as int;
    let s_im = dft_sum_im(data, tw, k, n);
    crate::fixed::lemma_qdiv_odd(s_im, SCALE as int);
    assert((SCALE as int) * (-(n * 0x4_0000_0000)) <= s_im
        && s_im <= (SCALE as int) * (n * 0x4_0000_0000)) by (nonlinear_arith)
        requires
            -(n * 0x4_0000_0000_0000) <= s_im <= n * 0x4_0000_0000_0000,
            n >= 0,
    ;
    crate::fixed::lemma_qdiv_between(
        s_im,
        SCALE as int,
        -(n * 0x4_0000_0000),
        n * 0x4_0000_0000,
    );
    assert(n * 0x4_0000_0000 < 0x8000_0000_0000_0000) by (nonlinear_arith)
        requires 0 <= n < 0x2000_0000,
    ;
}

} // verus!
