//! Helper functions for vector operations on blocks of samples.
//! All operations here are allocation free.

use vstd::prelude::*;
use crate::complex::Complex;

verus! {

/// Multiply vectors element wise.
///
/// The three vectors must share one length; every product must fit in a
/// sample.
pub fn multiply(xs: &Vec<i64>, ys: &Vec<i64>, output: &mut Vec<i64>)
    requires
        xs@.len() == old(output)@.len(),
        ys@.len() == old(output)@.len(),
        forall|i: int|
            0 <= i < xs@.len() ==> i64::MIN <= #[trigger] (xs@[i] * ys@[i]) <= i64::MAX,
    ensures
        final(output)@.len() == old(output)@.len(),
        forall|i: int|
            0 <= i < final(output)@.len() ==> final(output)@[i] == xs@[i] * ys@[i],
{
    let n: usize = output.len();
    let mut i: usize = 0;
    while i < n
        invariant
            n == output@.len() == xs@.len() == ys@.len(),
            i <= n,
            forall|k: int|
                0 <= k < xs@.len() ==> i64::MIN <= #[trigger] (xs@[k] * ys@[k]) <= i64::MAX,
            forall|k: int| 0 <= k < i ==> output@[k] == xs@[k] * ys@[k],
        decreases n - i,
    {
        let v: i64 = xs[i] * ys[i];
        output.set(i, v);
        i = i + 1;
    }
}

/// Index of the first sample of largest magnitude, by squared magnitude.
///
/// Returns 0 for an empty vector.  Ties keep the earliest index: the
/// scan updates only on a strictly larger magnitude.
pub fn argmax(xs: &Vec<Complex>) -> (r: usize)
    ensures
        xs@.len() == 0 ==> r == 0,
        xs@.len() > 0 ==> r < xs@.len(),
        forall|j: int|
            0 <= j < xs@.len() ==> xs@[j].norm_sqr_spec() <= xs@[r as int].norm_sqr_spec(),
        forall|j: int|
            0 <= j < r ==> xs@[j].norm_sqr_spec() < xs@[r as int].norm_sqr_spec(),
{
    if xs.len() == 0 {
        return 0;
    }
    let mut max_value: u128 = xs[0].norm_sqr();
    let mut arg_max: usize = 0;
    let mut i: usize = 1;
    while i < xs.len()
        invariant
            xs@.len() > 0,
            1 <= i <= xs@.len(),
            arg_max < i,
            max_value as int == xs@[arg_max as int].norm_sqr_spec(),
            forall|j: int|
                0 <= j < i ==> xs@[j].norm_sqr_spec() <= xs@[arg_max as int].norm_sqr_spec(),
            forall|j: int|
                0 <= j < arg_max ==> xs@[j].norm_sqr_spec() < xs@[arg_max as int].norm_sqr_spec(),
        decreases xs@.len() - i,
    {
        let v: u128 = xs[i].norm_sqr();
        if max_value < v {
            max_value = v;
            arg_max = i;
        }
        i = i + 1;
    }
    arg_max
}

} // verus!
