//! Windowed autocorrelation.
//!
//! Computed fresh over each full input buffer: subtract the input mean,
//! correlate a fixed-width window against itself at each offset of the
//! shared region `min(L - W, output len)`, then normalize that prefix
//! by the zero-lag value so that lag 0 reads exactly one (in Q16).
//! Whatever lies beyond the shared region keeps its old contents, as
//! with every other stage.  A zero zero-lag value (a constant input)
//! leaves the raw covariances in place instead of dividing by zero.

use vstd::prelude::*;
use crate::{SCALE, SAMPLE_LIMIT};
use crate::fixed::{qdiv, clamped, lemma_qdiv_between};
use crate::node::{ProcessNode, prefix_len};

verus! {

/// Sum of the first `n` samples.
pub open spec fn sum_of(s: Seq<i64>, n: int) -> int
    decreases n,
{
    if n <= 0 {
        0
    } else {
        sum_of(s, n - 1) + s[n - 1]
    }
}

/// The quantized mean of `input`.
pub open spec fn mean_of(input: Seq<i64>) -> int {
    qdiv(sum_of(input, input.len() as int), input.len() as int)
}

/// Covariance sum at `offset`: the first `n` terms of
/// `sum_j (x[j] - mu) * (x[j + offset] - mu)`.
pub open spec fn cov_sum(input: Seq<i64>, mu: int, offset: int, n: int) -> int
    decreases n,
{
    if n <= 0 {
        0
    } else {
        cov_sum(input, mu, offset, n - 1) + (input[n - 1] - mu) * (input[n - 1 + offset] - mu)
    }
}

/// The raw (unnormalized) autocorrelation at `offset`, averaged over
/// the window.
pub open spec fn autocorr_raw(input: Seq<i64>, w: int, offset: int) -> int {
    qdiv(cov_sum(input, mean_of(input), offset, w), w)
}

/// What the autocorrelation stage writes: the raw values, divided by
/// the zero-lag value into Q16 when that value is not zero.
pub open spec fn autocorr_out(input: Seq<i64>, w: int, out_len: int) -> Seq<int> {
    let raw = Seq::new(out_len as nat, |i: int| autocorr_raw(input, w, i));
    if autocorr_raw(input, w, 0) == 0 {
        raw
    } else {
        Seq::new(
            out_len as nat,
            |i: int| clamped(
                qdiv(raw[i] * SCALE, autocorr_raw(input, w, 0)),
                i64::MIN as int,
                i64::MAX as int,
            ),
        )
    }
}

/// The sum of bounded samples is bounded linearly in the count.
proof fn lemma_sum_bound(s: Seq<i64>, n: int, limit: int)
    requires
        0 <= n <= s.len(),
        limit >= 0,
        forall|j: int| 0 <= j < s.len() ==> -limit <= #[trigger] s[j] <= limit,
    ensures
        -(n * limit) <= sum_of(s, n) <= n * limit,
    decreases n,
{
    if n > 0 {
        lemma_sum_bound(s, n - 1, limit);
        assert(n * limit == (n - 1) * limit + limit) by (nonlinear_arith);
    }
}

/// Each covariance term is a product of two mean-centered samples, so
/// the partial sums grow at most by the square of the centered bound.
proof fn lemma_cov_bound(input: Seq<i64>, mu: int, offset: int, n: int, limit: int)
    requires
        limit >= 0,
        0 <= n,
        0 <= offset,
        n + offset <= input.len(),
        -limit <= mu <= limit,
        forall|j: int| 0 <= j < input.len() ==> -limit <= #[trigger] input[j] <= limit,
    ensures
        -(n * (4 * limit * limit)) <= cov_sum(input, mu, offset, n) <= n * (4 * limit * limit),
    decreases n,
{
    if n > 0 {
        lemma_cov_bound(input, mu, offset, n - 1, limit);
        let prev = cov_sum(input, mu, offset, n - 1);
        let a = input[n - 1] - mu;
        let b = input[n - 1 + offset] - mu;
        assert(-(n * (4 * limit * limit)) <= prev + a * b <= n * (4 * limit * limit))
            by (nonlinear_arith)
            requires
                -((n - 1) * (4 * limit * limit)) <= prev <= (n - 1) * (4 * limit * limit),
                -(2 * limit) <= a <= 2 * limit,
                -(2 * limit) <= b <= 2 * limit,
                limit >= 0,
                n >= 1,
        ;
        assert(cov_sum(input, mu, offset, n) == prev + a * b);
    }
}

/// At offset zero every covariance term is a square, so the sum is
/// never negative.
proof fn lemma_cov0_nonneg(input: Seq<i64>, mu: int, n: int)
    requires
        0 <= n <= input.len(),
    ensures
        cov_sum(input, mu, 0, n) >= 0,
    decreases n,
{
    if n > 0 {
        lemma_cov0_nonneg(input, mu, n - 1);
        assert((input[n - 1] - mu) * (input[n - 1] - mu) >= 0) by (nonlinear_arith);
    }
}

/// Law (autocorrelation self-similarity at lag zero): whenever the
/// zero-lag value is positive, the normalized autocorrelation at lag
/// zero is exactly one.
pub proof fn lemma_autocorr_unit_lag0(input: Seq<i64>, w: int, out_len: int)
    requires
        out_len >= 1,
        autocorr_raw(input, w, 0) > 0,
    ensures
        autocorr_out(input, w, out_len)[0] == SCALE,
{
    let s0 = autocorr_raw(input, w, 0);
    vstd::arithmetic::div_mod::lemma_div_multiples_vanish(SCALE as int, s0);
    assert(s0 * SCALE == SCALE * s0) by (nonlinear_arith);
    assert(s0 * SCALE >= 0) by (nonlinear_arith)
        requires s0 > 0, SCALE > 0,
    ;
}

/// Windowed autocorrelation over one buffer at a time; the only
/// configuration is the window width.
pub struct AutoCorrelation {
    window_size: usize,
}

impl AutoCorrelation {
    /// The window width.
    pub closed spec fn window_spec(&self) -> int {
        self.window_size as int
    }

    pub fn new(window_size: usize) -> (f: AutoCorrelation)
        requires
            window_size >= 1,
        ensures
            f.window_spec() == window_size,
    {
        AutoCorrelation { window_size }
    }
}

impl ProcessNode<i64, i64> for AutoCorrelation {
    /// The window must fit inside the input (an offset count would
    /// underflow otherwise), and the samples are bounded so that the
    /// squared terms fit.  The output buffer may have any length:
    /// offsets run over the shared region `min(L - W, output len)` and
    /// the rest of the output is left untouched.
    open spec fn process_req(&self, input: Seq<i64>, output: Seq<i64>) -> bool {
        &&& self.window_spec() >= 1
        &&& self.window_spec() <= input.len()
        &&& forall|j: int|
            0 <= j < input.len() ==> -SAMPLE_LIMIT <= #[trigger] input[j] <= SAMPLE_LIMIT
    }

    open spec fn process_ens(
        pre: Self,
        post: Self,
        input: Seq<i64>,
        out_pre: Seq<i64>,
        out_post: Seq<i64>,
    ) -> bool {
        let m = prefix_len(input.len() - pre.window_spec(), out_pre.len() as int);
        &&& post.window_spec() == pre.window_spec()
        &&& forall|i: int|
            0 <= i < m ==> out_post[i] == autocorr_out(input, pre.window_spec(), m)[i]
        &&& forall|i: int| m <= i < out_post.len() ==> out_post[i] == out_pre[i]
    }

    fn process_buffer(&mut self, input: &Vec<i64>, output: &mut Vec<i64>) {
        let len: usize = input.len();
        let w: usize = self.window_size;

        // Quantized mean of the full input.
        let mut total: i128 = 0;
        let mut j: usize = 0;
        while j < len
            invariant
                j <= len,
                len == input@.len(),
                forall|q: int|
                    0 <= q < input@.len() ==> -SAMPLE_LIMIT <= #[trigger] input@[q] <= SAMPLE_LIMIT,
                total as int == sum_of(input@, j as int),
                -((j as int) * (SAMPLE_LIMIT as int)) <= total as int
                    <= (j as int) * (SAMPLE_LIMIT as int),
            decreases len - j,
        {
            proof {
                lemma_sum_bound(input@, j + 1, SAMPLE_LIMIT as int);
            }
            total = total + (input[j] as i128);
            j = j + 1;
        }
        proof {
            assert((len as int) * (-SAMPLE_LIMIT as int) <= total as int
                <= (len as int) * (SAMPLE_LIMIT as int)) by (nonlinear_arith)
                requires
                    -((len as int) * (SAMPLE_LIMIT as int)) <= total as int
                        <= (len as int) * (SAMPLE_LIMIT as int),
            ;
            lemma_qdiv_between(total as int, len as int, -SAMPLE_LIMIT as int, SAMPLE_LIMIT as int);
        }
        let mu: i64 = (total / (len as i128)) as i64;

        // Raw auto covariance over the shared region.
        let avail: usize = len - w;
        let m: usize = if avail < output.len() {
            avail
        } else {
            output.len()
        };
        let mut i: usize = 0;
        while i < m
            invariant
                i <= m,
                len == input@.len(),
                w == self.window_spec(),
                1 <= w as int <= len as int,
                output@.len() == old(output)@.len(),
                m as int == prefix_len(len as int - w as int, output@.len() as int),
                forall|q: int|
                    0 <= q < input@.len() ==> -SAMPLE_LIMIT <= #[trigger] input@[q] <= SAMPLE_LIMIT,
                mu as int == mean_of(input@),
                -SAMPLE_LIMIT <= mu as int <= SAMPLE_LIMIT,
                self == old(self),
                forall|q: int|
                    0 <= q < i ==> output@[q] == autocorr_raw(input@, w as int, q),
                forall|q: int| i <= q < output@.len() ==> output@[q] == old(output)@[q],
            decreases m - i,
        {
            let mut acc: i128 = 0;
            let mut j2: usize = 0;
            while j2 < w
                invariant
                    j2 <= w,
                    i < m,
                    len == input@.len(),
                    1 <= w as int <= len as int,
                    m as int <= len as int - w as int,
                    forall|q: int|
                        0 <= q < input@.len()
                            ==> -SAMPLE_LIMIT <= #[trigger] input@[q] <= SAMPLE_LIMIT,
                    -SAMPLE_LIMIT <= mu as int <= SAMPLE_LIMIT,
                    acc as int == cov_sum(input@, mu as int, i as int, j2 as int),
                decreases w - j2,
            {
                proof {
                    lemma_cov_bound(input@, mu as int, i as int, j2 as int, SAMPLE_LIMIT as int);
                    lemma_cov_bound(input@, mu as int, i as int, j2 + 1, SAMPLE_LIMIT as int);
                    crate::complex::lemma_product_bound(
                        input@[j2 as int] - mu as int,
                        input@[j2 + i] - mu as int,
                        2 * SAMPLE_LIMIT as int,
                    );
                }
                let centered_a: i128 = (input[j2] as i128) - (mu as i128);
                let centered_b: i128 = (input[j2 + i] as i128) - (mu as i128);
                proof {
                    assert((j2 as int) * (4 * (SAMPLE_LIMIT as int) * (SAMPLE_LIMIT as int))
                        <= 0x1_0000_0000_0000_0000 * (4 * (SAMPLE_LIMIT as int) * (SAMPLE_LIMIT as int))
                        && (j2 + 1) * (4 * (SAMPLE_LIMIT as int) * (SAMPLE_LIMIT as int))
                        <= 0x1_0000_0000_0000_0000 * (4 * (SAMPLE_LIMIT as int) * (SAMPLE_LIMIT as int)))
                        by (nonlinear_arith)
                        requires 0 <= j2 as int, j2 + 1 <= 0x1_0000_0000_0000_0000,
                    ;
                }
                acc = acc + centered_a * centered_b;
                j2 = j2 + 1;
            }
            proof {
                lemma_cov_bound(input@, mu as int, i as int, w as int, SAMPLE_LIMIT as int);
                assert((w as int) * (-(4 * (SAMPLE_LIMIT as int) * (SAMPLE_LIMIT as int)))
                    <= acc as int
                    <= (w as int) * (4 * (SAMPLE_LIMIT as int) * (SAMPLE_LIMIT as int)))
                    by (nonlinear_arith)
                    requires
                        -((w as int) * (4 * (SAMPLE_LIMIT as int) * (SAMPLE_LIMIT as int)))
                            <= acc as int
                            <= (w as int) * (4 * (SAMPLE_LIMIT as int) * (SAMPLE_LIMIT as int)),
                ;
                lemma_qdiv_between(
                    acc as int,
                    w as int,
                    -(4 * (SAMPLE_LIMIT as int) * (SAMPLE_LIMIT as int)),
                    4 * (SAMPLE_LIMIT as int) * (SAMPLE_LIMIT as int),
                );
            }
            let v: i64 = (acc / (w as i128)) as i64;
            output.set(i, v);
            i = i + 1;
        }

        // Normalize the computed prefix by the zero-lag value, unless
        // that value is zero (a constant input) or nothing was written.
        if m > 0 {
            let s0: i64 = output[0];
            proof {
                lemma_cov0_nonneg(input@, mu as int, w as int);
                crate::fixed::lemma_qdiv_magnitude(
                    cov_sum(input@, mu as int, 0, w as int),
                    w as int,
                );
            }
            if s0 > 0 {
                let ghost raws = output@;
                let mut q: usize = 0;
                while q < m
                    invariant
                        q <= m,
                        s0 > 0,
                        m as int <= output@.len() as int,
                        output@.len() == raws.len(),
                        s0 == raws[0],
                        forall|t: int| q <= t < output@.len() ==> output@[t] == raws[t],
                        forall|t: int|
                            0 <= t < q ==> output@[t] == clamped(
                                qdiv(raws[t] * SCALE, s0 as int),
                                i64::MIN as int,
                                i64::MAX as int,
                            ),
                    decreases m - q,
                {
                    let v: i64 = crate::fixed::mul_div_q(output[q], SCALE, s0);
                    output.set(q, v);
                    q = q + 1;
                }
            }
        }
    }
}

} // verus!
