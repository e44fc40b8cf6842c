//! Process complex signals in the time domain: running integral,
//! discrete derivative, energy and power.

use vstd::prelude::*;
use crate::SAMPLE_LIMIT;
use crate::complex::Complex;
use crate::fixed::qdiv;

verus! {

/// Component-wise sum of the first `n` samples.
pub open spec fn running_sum(v: Seq<Complex>, n: int) -> (int, int)
    decreases n,
{
    if n <= 0 {
        (0, 0)
    } else {
        let prev = running_sum(v, n - 1);
        (prev.0 + v[n - 1].re, prev.1 + v[n - 1].im)
    }
}

/// Partial component sums of bounded samples stay within `n * limit`.
pub proof fn lemma_running_sum_bound(v: Seq<Complex>, n: int, limit: int)
    requires
        0 <= n <= v.len(),
        limit >= 0,
        crate::hilbert::all_bounded(v, limit),
    ensures
        -(n * limit) <= running_sum(v, n).0 <= n * limit,
        -(n * limit) <= running_sum(v, n).1 <= n * limit,
    decreases n,
{
    if n > 0 {
        lemma_running_sum_bound(v, n - 1, limit);
        assert(n * limit == (n - 1) * limit + limit) by (nonlinear_arith);
    }
}

/// Sum of squared magnitudes of the first `n` samples — the energy
/// carried by `x * conj(x)`.
pub open spec fn energy_sum(v: Seq<Complex>, n: int) -> int
    decreases n,
{
    if n <= 0 {
        0
    } else {
        energy_sum(v, n - 1) + v[n - 1].norm_sqr_spec()
    }
}

/// Partial energies of bounded samples grow at most by two squared
/// bounds per sample.
pub proof fn lemma_energy_bound(v: Seq<Complex>, n: int, limit: int)
    requires
        0 <= n <= v.len(),
        limit >= 0,
        crate::hilbert::all_bounded(v, limit),
    ensures
        0 <= energy_sum(v, n) <= n * (2 * limit * limit),
    decreases n,
{
    if n > 0 {
        lemma_energy_bound(v, n - 1, limit);
        let prev = energy_sum(v, n - 1);
        let a = v[n - 1].re as int;
        let b = v[n - 1].im as int;
        assert(0 <= prev + (a * a + b * b) <= n * (2 * limit * limit)) by (nonlinear_arith)
            requires
                0 <= prev <= (n - 1) * (2 * limit * limit),
                -limit <= a <= limit,
                -limit <= b <= limit,
                limit >= 0,
                n >= 1,
        ;
    }
}

/// Integrate the signal: `y[n] = sum of x[k] for all k <= n`.
pub fn integrate(v: &Vec<Complex>) -> (r: Vec<Complex>)
    requires
        v@.len() <= 0x1_0000_0000,
        crate::hilbert::all_bounded(v@, SAMPLE_LIMIT as int),
    ensures
        r@.len() == v@.len(),
        forall|n: int|
            0 <= n < v@.len()
                ==> #[trigger] r@[n] == (Complex {
                re: running_sum(v@, n + 1).0 as i64,
                im: running_sum(v@, n + 1).1 as i64,
            }),
{
    let mut out: Vec<Complex> = Vec::new();
    let mut acc_re: i64 = 0;
    let mut acc_im: i64 = 0;
    let mut n: usize = 0;
    while n < v.len()
        invariant
            n <= v@.len(),
            v@.len() <= 0x1_0000_0000,
            crate::hilbert::all_bounded(v@, SAMPLE_LIMIT as int),
            out@.len() == n as int,
            acc_re as int == running_sum(v@, n as int).0,
            acc_im as int == running_sum(v@, n as int).1,
            forall|m: int|
                0 <= m < n ==> #[trigger] out@[m] == (Complex {
                    re: running_sum(v@, m + 1).0 as i64,
                    im: running_sum(v@, m + 1).1 as i64,
                }),
        decreases v@.len() - n,
    {
        proof {
            lemma_running_sum_bound(v@, n as int, SAMPLE_LIMIT as int);
            lemma_running_sum_bound(v@, n + 1, SAMPLE_LIMIT as int);
            assert((n as int) * (SAMPLE_LIMIT as int) <= 0x1_0000_0000 * (SAMPLE_LIMIT as int)
                && (n + 1) * (SAMPLE_LIMIT as int) <= 0x1_0000_0000 * (SAMPLE_LIMIT as int))
                by (nonlinear_arith)
                requires 0 <= n as int, n + 1 <= 0x1_0000_0000,
            ;
        }
        let c: Complex = v[n];
        acc_re = acc_re + c.re;
        acc_im = acc_im + c.im;
        out.push(Complex { re: acc_re, im: acc_im });
        n = n + 1;
    }
    out
}

/// Differentiate the signal: `y[n] = x[n] - x[n-1]`, with `x[-1] = 0`.
pub fn differentiate(v: &Vec<Complex>) -> (r: Vec<Complex>)
    requires
        crate::hilbert::all_bounded(v@, SAMPLE_LIMIT as int),
    ensures
        r@.len() == v@.len(),
        forall|n: int|
            0 <= n < v@.len()
                ==> #[trigger] r@[n] == (Complex {
                re: (v@[n].re - crate::hilbert::padded(v@, n - 1).re) as i64,
                im: (v@[n].im - crate::hilbert::padded(v@, n - 1).im) as i64,
            }),
{
    let mut out: Vec<Complex> = Vec::new();
    let mut last: Complex = Complex { re: 0, im: 0 };
    let mut n: usize = 0;
    while n < v.len()
        invariant
            n <= v@.len(),
            crate::hilbert::all_bounded(v@, SAMPLE_LIMIT as int),
            out@.len() == n as int,
            last == crate::hilbert::padded(v@, n - 1),
            forall|m: int|
                0 <= m < n ==> #[trigger] out@[m] == (Complex {
                    re: (v@[m].re - crate::hilbert::padded(v@, m - 1).re) as i64,
                    im: (v@[m].im - crate::hilbert::padded(v@, m - 1).im) as i64,
                }),
        decreases v@.len() - n,
    {
        let c: Complex = v[n];
        out.push(Complex { re: c.re - last.re, im: c.im - last.im });
        last = c;
        n = n + 1;
    }
    out
}

/// Calculate energy: `E = sum of |x[n]|^2 over all n`.
pub fn energy(v: &Vec<Complex>) -> (e: i128)
    requires
        crate::hilbert::all_bounded(v@, SAMPLE_LIMIT as int),
    ensures
        e as int == energy_sum(v@, v@.len() as int),
{
    let mut acc: i128 = 0;
    let mut n: usize = 0;
    while n < v.len()
        invariant
            n <= v@.len(),
            crate::hilbert::all_bounded(v@, SAMPLE_LIMIT as int),
            acc as int == energy_sum(v@, n as int),
            0 <= acc as int
                <= (n as int) * (2 * (SAMPLE_LIMIT as int) * (SAMPLE_LIMIT as int)),
        decreases v@.len() - n,
    {
        proof {
            lemma_energy_bound(v@, n + 1, SAMPLE_LIMIT as int);
            assert((n + 1) * (2 * (SAMPLE_LIMIT as int) * (SAMPLE_LIMIT as int))
                <= 0x1_0000_0000_0000_0000 * (2 * (SAMPLE_LIMIT as int) * (SAMPLE_LIMIT as int)))
                by (nonlinear_arith)
                requires 0 <= n as int, n + 1 <= 0x1_0000_0000_0000_0000,
            ;
            assert(v@[n as int].bounded(SAMPLE_LIMIT as int));
            crate::complex::lemma_product_bound(
                v@[n as int].re as int,
                v@[n as int].re as int,
                SAMPLE_LIMIT as int,
            );
            crate::complex::lemma_product_bound(
                v@[n as int].im as int,
                v@[n as int].im as int,
                SAMPLE_LIMIT as int,
            );
        }
        let c: Complex = v[n];
        let re: i128 = c.re as i128;
        let im: i128 = c.im as i128;
        acc = acc + re * re + im * im;
        n = n + 1;
    }
    acc
}

/// Calculate power: `P = E / N`, truncated.
pub fn signal_power(v: &Vec<Complex>) -> (p: i64)
    requires
        v@.len() > 0,
        crate::hilbert::all_bounded(v@, SAMPLE_LIMIT as int),
    ensures
        p as int == qdiv(energy_sum(v@, v@.len() as int), v@.len() as int),
{
    let e: i128 = energy(v);
    proof {
        lemma_energy_bound(v@, v@.len() as int, SAMPLE_LIMIT as int);
        assert((v@.len() as int) * 0 <= e as int
            && e as int <= (v@.len() as int) * (2 * (SAMPLE_LIMIT as int) * (SAMPLE_LIMIT as int)))
            by (nonlinear_arith)
            requires
                0 <= e as int
                    <= (v@.len() as int) * (2 * (SAMPLE_LIMIT as int) * (SAMPLE_LIMIT as int)),
                v@.len() as int >= 1,
        ;
        crate::fixed::lemma_qdiv_between(
            e as int,
            v@.len() as int,
            0,
            2 * (SAMPLE_LIMIT as int) * (SAMPLE_LIMIT as int),
        );
    }
    (e / (v.len() as i128)) as i64
}

/// Add a constant offset to every sample, as the noise helper does.
pub fn add_noise(v: &Vec<Complex>, amplitude: i64) -> (r: Vec<Complex>)
    requires
        crate::hilbert::all_bounded(v@, SAMPLE_LIMIT as int),
        -SAMPLE_LIMIT <= amplitude <= SAMPLE_LIMIT,
    ensures
        r@.len() == v@.len(),
        forall|n: int|
            0 <= n < v@.len()
                ==> #[trigger] r@[n] == (Complex { re: (v@[n].re + amplitude) as i64, im: v@[n].im }),
{
    let mut out: Vec<Complex> = Vec::new();
    let mut n: usize = 0;
    while n < v.len()
        invariant
            n <= v@.len(),
            crate::hilbert::all_bounded(v@, SAMPLE_LIMIT as int),
            -SAMPLE_LIMIT <= amplitude <= SAMPLE_LIMIT,
            out@.len() == n as int,
            forall|m: int|
                0 <= m < n ==> #[trigger] out@[m] == (Complex {
                    re: (v@[m].re + amplitude) as i64,
                    im: v@[m].im,
                }),
        decreases v@.len() - n,
    {
        let c: Complex = v[n];
        out.push(Complex { re: c.re + amplitude, im: c.im });
        n = n + 1;
    }
    out
}

} // verus!
