//! Helper functions for discrete signals in time domain.

use vstd::prelude::*;
use crate::SAMPLE_LIMIT;
use crate::fixed::qdiv;

verus! {

/// A finite signal: its samples and the rate they were taken at.
pub struct Signal {
    pub data: Vec<i64>,
    pub sample_rate: usize,
}

/// Sum of the squares of the first `n` samples.
pub open spec fn sum_sq(s: Seq<i64>, n: int) -> int
    decreases n,
{
    if n <= 0 {
        0
    } else {
        sum_sq(s, n - 1) + s[n - 1] * s[n - 1]
    }
}

/// Partial sums of squares of bounded samples grow at most
/// quadratically in the bound.
pub proof fn lemma_sum_sq_bound(s: Seq<i64>, n: int, limit: int)
    requires
        0 <= n <= s.len(),
        limit >= 0,
        forall|j: int| 0 <= j < s.len() ==> -limit <= #[trigger] s[j] <= limit,
    ensures
        0 <= sum_sq(s, n) <= n * (limit * limit),
    decreases n,
{
    if n > 0 {
        lemma_sum_sq_bound(s, n - 1, limit);
        let prev = sum_sq(s, n - 1);
        let a = s[n - 1];
        assert(0 <= prev + a * a <= n * (limit * limit)) by (nonlinear_arith)
            requires
                0 <= prev <= (n - 1) * (limit * limit),
                -limit <= a <= limit,
                limit >= 0,
                n >= 1,
        ;
    }
}

/// Calculate signal power: the mean of the squared samples, truncated.
pub fn power(buffer: &Vec<i64>) -> (p: i64)
    requires
        buffer@.len() > 0,
        forall|j: int|
            0 <= j < buffer@.len() ==> -SAMPLE_LIMIT <= #[trigger] buffer@[j] <= SAMPLE_LIMIT,
    ensures
        p == qdiv(sum_sq(buffer@, buffer@.len() as int), buffer@.len() as int),
{
    let n: usize = buffer.len();
    let mut acc: i128 = 0;
    let mut i: usize = 0;
    while i < n
        invariant
            i <= n,
            n == buffer@.len(),
            forall|j: int|
                0 <= j < buffer@.len() ==> -SAMPLE_LIMIT <= #[trigger] buffer@[j] <= SAMPLE_LIMIT,
            acc as int == sum_sq(buffer@, i as int),
            0 <= acc as int <= (i as int) * ((SAMPLE_LIMIT as int) * (SAMPLE_LIMIT as int)),
        decreases n - i,
    {
        proof {
            lemma_sum_sq_bound(buffer@, i + 1, SAMPLE_LIMIT as int);
            assert((i + 1) * ((SAMPLE_LIMIT as int) * (SAMPLE_LIMIT as int))
                <= 0x1_0000_0000_0000_0000 * ((SAMPLE_LIMIT as int) * (SAMPLE_LIMIT as int)))
                by (nonlinear_arith)
                requires 0 <= i as int, i + 1 <= 0x1_0000_0000_0000_0000,
            ;
        }
        let v: i128 = buffer[i] as i128;
        acc = acc + v * v;
        i = i + 1;
    }
    proof {
        assert((n as int) * 0 <= acc as int
            && acc as int <= (n as int) * ((SAMPLE_LIMIT as int) * (SAMPLE_LIMIT as int)))
            by (nonlinear_arith)
            requires
                0 <= acc as int <= (n as int) * ((SAMPLE_LIMIT as int) * (SAMPLE_LIMIT as int)),
                n as int >= 1,
        ;
        crate::fixed::lemma_qdiv_between(
            acc as int,
            n as int,
            0,
            (SAMPLE_LIMIT as int) * (SAMPLE_LIMIT as int),
        );
    }
    (acc / (n as i128)) as i64
}

} // verus!
