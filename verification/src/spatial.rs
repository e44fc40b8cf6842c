//! Spatial-domain processing of real signals: the zero-padded
//! embedding, shifting and scaling.

use vstd::prelude::*;
use crate::SAMPLE_LIMIT;

verus! {

/// The zero-padded extension of a real signal.
pub open spec fn padded_real(v: Seq<i64>, i: int) -> i64 {
    if 0 <= i < v.len() {
        v[i]
    } else {
        0i64
    }
}

/// Extend the finite series into an infinite one: the sample at `i`,
/// or zero out of range.
pub fn extended_get(v: &Vec<i64>, i: isize) -> (r: i64)
    requires
        v@.len() <= isize::MAX,
    ensures
        r == padded_real(v@, i as int),
{
    if i < 0 || i >= (v.len() as isize) {
        0
    } else {
        v[i as usize]
    }
}

/// Shift the signal by `k` samples: `y[n] = x[n - k]`, zero-padded,
/// length preserved.
pub fn shift(v: &Vec<i64>, k: isize) -> (r: Vec<i64>)
    requires
        v@.len() <= isize::MAX,
        v@.len() - k <= isize::MAX,
    ensures
        r@.len() == v@.len(),
        forall|n: int| 0 <= n < v@.len() ==> r@[n] == padded_real(v@, n - k),
{
    let mut out: Vec<i64> = Vec::new();
    let size: isize = v.len() as isize;
    let mut n: isize = 0;
    while n < size
        invariant
            0 <= n <= size,
            size == v@.len(),
            v@.len() <= isize::MAX,
            v@.len() - k <= isize::MAX,
            out@.len() == n as int,
            forall|m: int| 0 <= m < n ==> out@[m] == padded_real(v@, m - k),
        decreases size - n,
    {
        out.push(extended_get(v, n - k));
        n = n + 1;
    }
    out
}

/// Scale the signal by an integer factor: `y[n] = a * x[n]`.
pub fn scale(v: &Vec<i64>, a: i64) -> (r: Vec<i64>)
    requires
        forall|i: int| 0 <= i < v@.len() ==> -SAMPLE_LIMIT <= #[trigger] v@[i] <= SAMPLE_LIMIT,
        -SAMPLE_LIMIT <= a <= SAMPLE_LIMIT,
    ensures
        r@.len() == v@.len(),
        forall|n: int| 0 <= n < v@.len() ==> r@[n] == v@[n] * a,
{
    let mut out: Vec<i64> = Vec::new();
    let mut n: usize = 0;
    while n < v.len()
        invariant
            n <= v@.len(),
            forall|i: int| 0 <= i < v@.len() ==> -SAMPLE_LIMIT <= #[trigger] v@[i] <= SAMPLE_LIMIT,
            -SAMPLE_LIMIT <= a <= SAMPLE_LIMIT,
            out@.len() == n as int,
            forall|m: int| 0 <= m < n ==> out@[m] == v@[m] * a,
        decreases v@.len() - n,
    {
        proof {
            crate::complex::lemma_product_bound(v@[n as int] as int, a as int, SAMPLE_LIMIT as int);
        }
        let x: i64 = v[n];
        out.push(x * a);
        n = n + 1;
    }
    out
}

} // verus!
