//! Vector-space operations on complex signals.
//!
//! A signal is a finite vector of complex samples, read as an infinite
//! time series padded with zeros on both sides; shifting, scaling,
//! adding and multiplying are defined over that embedding.  Component
//! magnitudes are kept within `SAMPLE_LIMIT` so that every product and
//! sum fits in a sample.

use vstd::prelude::*;
use crate::SAMPLE_LIMIT;
use crate::complex::Complex;

verus! {

/// Every sample within `limit` in both components.
pub open spec fn all_bounded(v: Seq<Complex>, limit: int) -> bool {
    forall|i: int| 0 <= i < v.len() ==> (#[trigger] v[i]).bounded(limit)
}

/// The zero-padded extension of `v`: its sample at `i`, or zero when
/// `i` falls outside the vector.
pub open spec fn padded(v: Seq<Complex>, i: int) -> Complex {
    if 0 <= i < v.len() {
        v[i]
    } else {
        Complex { re: 0i64, im: 0i64 }
    }
}

/// Create a complex vector from real samples.
pub fn from_real(v: &Vec<i64>) -> (r: Vec<Complex>)
    ensures
        r@.len() == v@.len(),
        forall|i: int| 0 <= i < v@.len() ==> r@[i] == (Complex { re: v@[i], im: 0i64 }),
{
    let mut out: Vec<Complex> = Vec::new();
    let mut i: usize = 0;
    while i < v.len()
        invariant
            i <= v@.len(),
            out@.len() == i as int,
            forall|k: int| 0 <= k < i ==> out@[k] == (Complex { re: v@[k], im: 0i64 }),
        decreases v@.len() - i,
    {
        out.push(Complex { re: v[i], im: 0 });
        i = i + 1;
    }
    out
}

/// Embed the finite series into an infinite one: the sample at `i`, or
/// zero out of range.
pub fn safe_get(v: &Vec<Complex>, i: isize) -> (r: Complex)
    requires
        v@.len() <= isize::MAX,
    ensures
        r == padded(v@, i as int),
{
    if i < 0 || i >= (v.len() as isize) {
        Complex { re: 0, im: 0 }
    } else {
        v[i as usize]
    }
}

/// Shift the signal by `k` samples: `y[n] = x[n - k]`, zero-padded,
/// length preserved.
pub fn shift(v: &Vec<Complex>, k: isize) -> (r: Vec<Complex>)
    requires
        v@.len() <= isize::MAX,
        v@.len() - k <= isize::MAX,
    ensures
        r@.len() == v@.len(),
        forall|n: int| 0 <= n < v@.len() ==> r@[n] == padded(v@, n - k),
{
    let mut out: Vec<Complex> = Vec::new();
    let size: isize = v.len() as isize;
    let mut n: isize = 0;
    while n < size
        invariant
            0 <= n <= size,
            size == v@.len(),
            v@.len() <= isize::MAX,
            v@.len() - k <= isize::MAX,
            out@.len() == n as int,
            forall|m: int| 0 <= m < n ==> out@[m] == padded(v@, m - k),
        decreases size - n,
    {
        out.push(safe_get(v, n - k));
        n = n + 1;
    }
    out
}

/// Scale the signal by an integer factor: `y[n] = a * x[n]`.
pub fn scale(v: &Vec<Complex>, a: i64) -> (r: Vec<Complex>)
    requires
        all_bounded(v@, SAMPLE_LIMIT as int),
        -SAMPLE_LIMIT <= a <= SAMPLE_LIMIT,
    ensures
        r@.len() == v@.len(),
        forall|n: int|
            0 <= n < v@.len()
                ==> #[trigger] r@[n] == (Complex {
                re: (v@[n].re * a) as i64,
                im: (v@[n].im * a) as i64,
            }),
{
    let mut out: Vec<Complex> = Vec::new();
    let mut n: usize = 0;
    while n < v.len()
        invariant
            n <= v@.len(),
            all_bounded(v@, SAMPLE_LIMIT as int),
            -SAMPLE_LIMIT <= a <= SAMPLE_LIMIT,
            out@.len() == n as int,
            forall|m: int|
                0 <= m < n ==> #[trigger] out@[m] == (Complex {
                    re: (v@[m].re * a) as i64,
                    im: (v@[m].im * a) as i64,
                }),
        decreases v@.len() - n,
    {
        proof {
            crate::complex::lemma_product_bound(v@[n as int].re as int, a as int, SAMPLE_LIMIT as int);
            crate::complex::lemma_product_bound(v@[n as int].im as int, a as int, SAMPLE_LIMIT as int);
        }
        let c: Complex = v[n];
        out.push(Complex { re: c.re * a, im: c.im * a });
        n = n + 1;
    }
    out
}

/// Add two vectors: `z[n] = x[n] + y[n]`, zero-padded out to the
/// longer one.
pub fn add(v1: &Vec<Complex>, v2: &Vec<Complex>) -> (r: Vec<Complex>)
    requires
        all_bounded(v1@, SAMPLE_LIMIT as int),
        all_bounded(v2@, SAMPLE_LIMIT as int),
    ensures
        r@.len() == vstd::math::max(v1@.len() as int, v2@.len() as int),
        forall|n: int|
            0 <= n < r@.len()
                ==> #[trigger] r@[n] == (Complex {
                re: (padded(v1@, n).re + padded(v2@, n).re) as i64,
                im: (padded(v1@, n).im + padded(v2@, n).im) as i64,
            }),
{
    let size: usize = if v1.len() > v2.len() {
        v1.len()
    } else {
        v2.len()
    };
    let mut out: Vec<Complex> = Vec::new();
    let mut n: usize = 0;
    while n < size
        invariant
            n <= size,
            size == vstd::math::max(v1@.len() as int, v2@.len() as int),
            all_bounded(v1@, SAMPLE_LIMIT as int),
            all_bounded(v2@, SAMPLE_LIMIT as int),
            out@.len() == n as int,
            forall|m: int|
                0 <= m < n ==> #[trigger] out@[m] == (Complex {
                    re: (padded(v1@, m).re + padded(v2@, m).re) as i64,
                    im: (padded(v1@, m).im + padded(v2@, m).im) as i64,
                }),
        decreases size - n,
    {
        let a: Complex = if n < v1.len() {
            v1[n]
        } else {
            Complex { re: 0, im: 0 }
        };
        let b: Complex = if n < v2.len() {
            v2[n]
        } else {
            Complex { re: 0, im: 0 }
        };
        out.push(Complex { re: a.re + b.re, im: a.im + b.im });
        n = n + 1;
    }
    out
}

/// Multiply two vectors element-wise: `z[n] = x[n] * y[n]`, cut to the
/// shorter one.
pub fn multiply(v1: &Vec<Complex>, v2: &Vec<Complex>) -> (r: Vec<Complex>)
    requires
        all_bounded(v1@, SAMPLE_LIMIT as int),
        all_bounded(v2@, SAMPLE_LIMIT as int),
    ensures
        r@.len() == vstd::math::min(v1@.len() as int, v2@.len() as int),
        forall|n: int|
            0 <= n < r@.len()
                ==> #[trigger] r@[n] == (Complex {
                re: (v1@[n].re * v2@[n].re - v1@[n].im * v2@[n].im) as i64,
                im: (v1@[n].re * v2@[n].im + v1@[n].im * v2@[n].re) as i64,
            }),
{
    let size: usize = if v1.len() < v2.len() {
        v1.len()
    } else {
        v2.len()
    };
    let mut out: Vec<Complex> = Vec::new();
    let mut n: usize = 0;
    while n < size
        invariant
            n <= size,
            size == vstd::math::min(v1@.len() as int, v2@.len() as int),
            all_bounded(v1@, SAMPLE_LIMIT as int),
            all_bounded(v2@, SAMPLE_LIMIT as int),
            out@.len() == n as int,
            forall|m: int|
                0 <= m < n ==> #[trigger] out@[m] == (Complex {
                    re: (v1@[m].re * v2@[m].re - v1@[m].im * v2@[m].im) as i64,
                    im: (v1@[m].re * v2@[m].im + v1@[m].im * v2@[m].re) as i64,
                }),
        decreases size - n,
    {
        let a: Complex = v1[n];
        let b: Complex = v2[n];
        let c: Complex = a.mul(&b);
        out.push(c);
        n = n + 1;
    }
    out
}

} // verus!
