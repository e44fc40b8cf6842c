//! A biquad filter (IIR): the direct-form difference equation
//! `y[n] = (b0*x[n] + b1*x[n-1] + b2*x[n-2] - a1*y[n-1] - a2*y[n-2]) / a0`,
//! quantized by truncating division and clamped into the sample range.
//!
//! The two-deep input and output histories persist across buffer
//! boundaries, so processing one long buffer and processing the same
//! samples split into two buffers produce identical output
//! ([`lemma_biquad_continuity`]).

use vstd::prelude::*;
use crate::fixed::{qdiv, clamped, lemma_qdiv_magnitude};
use crate::filter::history::{HistoryRing, hist_contents, hist_new, hist_push_front, hist_pop_back, hist_get};
use crate::node::{ProcessNode, prefix_len};

verus! {

/// Largest coefficient magnitude accepted; keeps the five products of a
/// step summable inside `i128` whatever the samples are.
pub const COEF_LIMIT: i64 = 0x2000_0000_0000_0000;

/// One direct-form step over the previous inputs `xs` and previous
/// outputs `ys` (both newest first), truncated toward zero and clamped
/// into the sample range.
pub open spec fn biquad_step(
    b0: int,
    b1: int,
    b2: int,
    a0: int,
    a1: int,
    a2: int,
    xs: Seq<i64>,
    ys: Seq<i64>,
    x: int,
) -> i64 {
    clamped(
        qdiv(b0 * x + b1 * xs[0] + b2 * xs[1] - a1 * ys[0] - a2 * ys[1], a0),
        i64::MIN as int,
        i64::MAX as int,
    ) as i64
}

/// A history shifted by one new value: the value enters at the front,
/// the oldest of the three slots leaves.
pub open spec fn shifted(h: Seq<i64>, v: i64) -> Seq<i64> {
    seq![v] + h.take(2)
}

/// The outputs and final histories of running `input` through the
/// filter one sample at a time.
pub open spec fn biquad_run(
    b0: int,
    b1: int,
    b2: int,
    a0: int,
    a1: int,
    a2: int,
    xs: Seq<i64>,
    ys: Seq<i64>,
    input: Seq<i64>,
) -> (Seq<i64>, Seq<i64>, Seq<i64>)
    decreases input.len(),
{
    if input.len() == 0 {
        (Seq::empty(), xs, ys)
    } else {
        let y = biquad_step(b0, b1, b2, a0, a1, a2, xs, ys, input[0] as int);
        let rest = biquad_run(
            b0,
            b1,
            b2,
            a0,
            a1,
            a2,
            shifted(xs, input[0]),
            shifted(ys, y),
            input.drop_first(),
        );
        (seq![y] + rest.0, rest.1, rest.2)
    }
}

/// A run produces one output per input sample.
pub proof fn lemma_biquad_run_len(
    b0: int,
    b1: int,
    b2: int,
    a0: int,
    a1: int,
    a2: int,
    xs: Seq<i64>,
    ys: Seq<i64>,
    input: Seq<i64>,
)
    ensures
        biquad_run(b0, b1, b2, a0, a1, a2, xs, ys, input).0.len() == input.len(),
    decreases input.len(),
{
    if input.len() > 0 {
        let y = biquad_step(b0, b1, b2, a0, a1, a2, xs, ys, input[0] as int);
        lemma_biquad_run_len(
            b0,
            b1,
            b2,
            a0,
            a1,
            a2,
            shifted(xs, input[0]),
            shifted(ys, y),
            input.drop_first(),
        );
    }
}

/// Extending the input by one sample appends exactly one step to the
/// run and shifts the histories once more.
pub proof fn lemma_biquad_run_snoc(
    b0: int,
    b1: int,
    b2: int,
    a0: int,
    a1: int,
    a2: int,
    xs: Seq<i64>,
    ys: Seq<i64>,
    input: Seq<i64>,
    i: int,
)
    requires
        0 <= i < input.len(),
    ensures
        ({
            let prev = biquad_run(b0, b1, b2, a0, a1, a2, xs, ys, input.take(i));
            let y = biquad_step(b0, b1, b2, a0, a1, a2, prev.1, prev.2, input[i] as int);
            let cur = biquad_run(b0, b1, b2, a0, a1, a2, xs, ys, input.take(i + 1));
            &&& cur.0 == prev.0 + seq![y]
            &&& cur.1 == shifted(prev.1, input[i])
            &&& cur.2 == shifted(prev.2, y)
        }),
    decreases i,
{
    let pre = input.take(i);
    let cur = input.take(i + 1);
    if i == 0 {
        assert(cur.drop_first() =~= Seq::<i64>::empty());
        assert(cur[0] == input[0]);
        assert(pre =~= Seq::<i64>::empty());
        let y = biquad_step(b0, b1, b2, a0, a1, a2, xs, ys, input[0] as int);
        let rest = biquad_run(
            b0, b1, b2, a0, a1, a2, shifted(xs, input[0]), shifted(ys, y), cur.drop_first());
        assert(rest.0 == Seq::<i64>::empty() && rest.1 == shifted(xs, input[0])
            && rest.2 == shifted(ys, y));
        assert(biquad_run(b0, b1, b2, a0, a1, a2, xs, ys, cur).0 =~= seq![y]);
        assert(biquad_run(b0, b1, b2, a0, a1, a2, xs, ys, cur).1 == shifted(xs, input[0]));
        assert(biquad_run(b0, b1, b2, a0, a1, a2, xs, ys, cur).2 == shifted(ys, y));
    } else {
        let rest = input.subrange(1, input.len() as int);
        assert(cur.drop_first() =~= rest.take(i));
        assert(pre.drop_first() =~= rest.take(i - 1));
        assert(pre[0] == input[0] && cur[0] == input[0]);
        let y0 = biquad_step(b0, b1, b2, a0, a1, a2, xs, ys, input[0] as int);
        lemma_biquad_run_snoc(
            b0,
            b1,
            b2,
            a0,
            a1,
            a2,
            shifted(xs, input[0]),
            shifted(ys, y0),
            rest,
            i - 1,
        );
        assert(rest[i - 1] == input[i]);
        let prev = biquad_run(b0, b1, b2, a0, a1, a2, xs, ys, pre);
        let inner_prev = biquad_run(
            b0,
            b1,
            b2,
            a0,
            a1,
            a2,
            shifted(xs, input[0]),
            shifted(ys, y0),
            rest.take(i - 1),
        );
        assert(prev.0 == seq![y0] + inner_prev.0);
        assert(prev.1 == inner_prev.1 && prev.2 == inner_prev.2);
        let y = biquad_step(b0, b1, b2, a0, a1, a2, prev.1, prev.2, input[i] as int);
        let inner_cur = biquad_run(
            b0, b1, b2, a0, a1, a2, shifted(xs, input[0]), shifted(ys, y0), rest.take(i));
        assert(inner_cur.0 == inner_prev.0 + seq![y]
            && inner_cur.1 == shifted(inner_prev.1, input[i])
            && inner_cur.2 == shifted(inner_prev.2, y));
        assert(biquad_run(b0, b1, b2, a0, a1, a2, xs, ys, cur).0
            =~= prev.0 + seq![y]);
        assert(biquad_run(b0, b1, b2, a0, a1, a2, xs, ys, cur).1
            == shifted(prev.1, input[i]));
        assert(biquad_run(b0, b1, b2, a0, a1, a2, xs, ys, cur).2
            == shifted(prev.2, y));
    }
}

/// Law: state carried across a buffer boundary makes the outputs
/// independent of how the input was split.  Running `first ++ second`
/// from any histories equals running `first`, then running `second`
/// from the histories `first` left behind.
pub proof fn lemma_biquad_continuity(
    b0: int,
    b1: int,
    b2: int,
    a0: int,
    a1: int,
    a2: int,
    xs: Seq<i64>,
    ys: Seq<i64>,
    first: Seq<i64>,
    second: Seq<i64>,
)
    ensures
        ({
            let whole = biquad_run(b0, b1, b2, a0, a1, a2, xs, ys, first + second);
            let head = biquad_run(b0, b1, b2, a0, a1, a2, xs, ys, first);
            let tail = biquad_run(b0, b1, b2, a0, a1, a2, head.1, head.2, second);
            &&& whole.0 == head.0 + tail.0
            &&& whole.1 == tail.1
            &&& whole.2 == tail.2
        }),
    decreases first.len(),
{
    let whole = biquad_run(b0, b1, b2, a0, a1, a2, xs, ys, first + second);
    let head = biquad_run(b0, b1, b2, a0, a1, a2, xs, ys, first);
    if first.len() == 0 {
        assert(first + second =~= second);
        let tail = biquad_run(b0, b1, b2, a0, a1, a2, xs, ys, second);
        assert(whole.0 =~= head.0 + tail.0);
    } else {
        let joined = first + second;
        assert(joined[0] == first[0]);
        assert(joined.drop_first() =~= first.drop_first() + second);
        let y = biquad_step(b0, b1, b2, a0, a1, a2, xs, ys, first[0] as int);
        lemma_biquad_continuity(
            b0,
            b1,
            b2,
            a0,
            a1,
            a2,
            shifted(xs, first[0]),
            shifted(ys, y),
            first.drop_first(),
            second,
        );
        let inner_head = biquad_run(
            b0,
            b1,
            b2,
            a0,
            a1,
            a2,
            shifted(xs, first[0]),
            shifted(ys, y),
            first.drop_first(),
        );
        let tail = biquad_run(b0, b1, b2, a0, a1, a2, head.1, head.2, second);
        assert(head.0 == seq![y] + inner_head.0);
        assert(whole.0 =~= head.0 + tail.0);
    }
}

/// A biquad filter (IIR) with two-deep input and output histories.
pub struct BiquadFilter {
    x: HistoryRing,
    y: HistoryRing,
    b0: i64,
    b1: i64,
    b2: i64,
    a0: i64,
    a1: i64,
    a2: i64,
}

impl BiquadFilter {
    pub closed spec fn b0_spec(&self) -> int { self.b0 as int }

    pub closed spec fn b1_spec(&self) -> int { self.b1 as int }

    pub closed spec fn b2_spec(&self) -> int { self.b2 as int }

    pub closed spec fn a0_spec(&self) -> int { self.a0 as int }

    pub closed spec fn a1_spec(&self) -> int { self.a1 as int }

    pub closed spec fn a2_spec(&self) -> int { self.a2 as int }

    /// The input history, newest first.
    pub closed spec fn xs_spec(&self) -> Seq<i64> {
        hist_contents(self.x)
    }

    /// The output history, newest first.
    pub closed spec fn ys_spec(&self) -> Seq<i64> {
        hist_contents(self.y)
    }

    /// The two coefficient sets are unchanged between two states.
    pub open spec fn same_coefficients(pre: Self, post: Self) -> bool {
        &&& post.b0_spec() == pre.b0_spec()
        &&& post.b1_spec() == pre.b1_spec()
        &&& post.b2_spec() == pre.b2_spec()
        &&& post.a0_spec() == pre.a0_spec()
        &&& post.a1_spec() == pre.a1_spec()
        &&& post.a2_spec() == pre.a2_spec()
    }

    /// Well-formed filter: full three-slot histories, bounded
    /// coefficients, and a positive leading denominator coefficient
    /// (construction normalizes its sign).
    pub open spec fn wf(&self) -> bool {
        &&& self.xs_spec().len() == 3
        &&& self.ys_spec().len() == 3
        &&& 1 <= self.a0_spec() <= COEF_LIMIT
        &&& -COEF_LIMIT <= self.b0_spec() <= COEF_LIMIT
        &&& -COEF_LIMIT <= self.b1_spec() <= COEF_LIMIT
        &&& -COEF_LIMIT <= self.b2_spec() <= COEF_LIMIT
        &&& -COEF_LIMIT <= self.a1_spec() <= COEF_LIMIT
        &&& -COEF_LIMIT <= self.a2_spec() <= COEF_LIMIT
    }

    /// Returns a new biquad IIR filter over numerator coefficients `b`
    /// and denominator coefficients `a`.
    ///
    /// Both slices must hold exactly three coefficients and `a[0]` must
    /// not be zero — a zero `a[0]` would divide every output by zero.
    /// When `a[0]` is negative the six coefficients are stored negated,
    /// which leaves every quotient of the difference equation unchanged.
    pub fn new(b: &Vec<i64>, a: &Vec<i64>) -> (f: BiquadFilter)
        requires
            b@.len() == 3,
            a@.len() == 3,
            a@[0] != 0,
            forall|i: int| 0 <= i < 3 ==> -COEF_LIMIT <= #[trigger] b@[i] <= COEF_LIMIT,
            forall|i: int| 0 <= i < 3 ==> -COEF_LIMIT <= #[trigger] a@[i] <= COEF_LIMIT,
        ensures
            f.wf(),
            f.xs_spec() =~= seq![0i64, 0i64, 0i64],
            f.ys_spec() =~= seq![0i64, 0i64, 0i64],
            a@[0] > 0 ==> {
                &&& f.b0_spec() == b@[0] && f.b1_spec() == b@[1] && f.b2_spec() == b@[2]
                &&& f.a0_spec() == a@[0] && f.a1_spec() == a@[1] && f.a2_spec() == a@[2]
            },
            a@[0] < 0 ==> {
                &&& f.b0_spec() == -b@[0] && f.b1_spec() == -b@[1] && f.b2_spec() == -b@[2]
                &&& f.a0_spec() == -a@[0] && f.a1_spec() == -a@[1] && f.a2_spec() == -a@[2]
            },
    {
        let mut x = hist_new();
        let mut y = hist_new();
        let mut k: usize = 0;
        while k < 3
            invariant
                k <= 3,
                hist_contents(x).len() == k as int,
                hist_contents(y).len() == k as int,
                forall|j: int| 0 <= j < k ==> hist_contents(x)[j] == 0i64,
                forall|j: int| 0 <= j < k ==> hist_contents(y)[j] == 0i64,
            decreases 3 - k,
        {
            let _ = hist_push_front(&mut x, 0);
            let _ = hist_push_front(&mut y, 0);
            k = k + 1;
        }
        if a[0] > 0 {
            BiquadFilter {
                x,
                y,
                b0: b[0],
                b1: b[1],
                b2: b[2],
                a0: a[0],
                a1: a[1],
                a2: a[2],
            }
        } else {
            BiquadFilter {
                x,
                y,
                b0: -b[0],
                b1: -b[1],
                b2: -b[2],
                a0: -a[0],
                a1: -a[1],
                a2: -a[2],
            }
        }
    }

    /// Process one sample of the input signal and return one sample of
    /// the output signal.
    fn process_one(&mut self, in_samp: i64) -> (out: i64)
        requires
            old(self).wf(),
        ensures
            final(self).wf(),
            Self::same_coefficients(*old(self), *final(self)),
            out == biquad_step(
                old(self).b0_spec(),
                old(self).b1_spec(),
                old(self).b2_spec(),
                old(self).a0_spec(),
                old(self).a1_spec(),
                old(self).a2_spec(),
                old(self).xs_spec(),
                old(self).ys_spec(),
                in_samp as int,
            ),
            final(self).xs_spec() == shifted(old(self).xs_spec(), in_samp),
            final(self).ys_spec() == shifted(old(self).ys_spec(), out),
    {
        let ghost xs0 = hist_contents(self.x);
        let ghost ys0 = hist_contents(self.y);

        // Shift in the new input, dropping the oldest slot.
        let _ = hist_pop_back(&mut self.x);
        let _ = hist_push_front(&mut self.x, in_samp);
        let _ = hist_pop_back(&mut self.y);
        proof {
            assert(hist_contents(self.x) =~= shifted(xs0, in_samp));
            assert(hist_contents(self.y) =~= ys0.take(2));
        }

        let x0 = match hist_get(&self.x, 0) {
            Some(v) => v,
            None => { proof { assert(false); } 0 }
        };
        let x1 = match hist_get(&self.x, 1) {
            Some(v) => v,
            None => { proof { assert(false); } 0 }
        };
        let x2 = match hist_get(&self.x, 2) {
            Some(v) => v,
            None => { proof { assert(false); } 0 }
        };
        let y1 = match hist_get(&self.y, 0) {
            Some(v) => v,
            None => { proof { assert(false); } 0 }
        };
        let y2 = match hist_get(&self.y, 1) {
            Some(v) => v,
            None => { proof { assert(false); } 0 }
        };

        proof {
            crate::complex::lemma_product_bound_asym(
                self.b0 as int, x0 as int, COEF_LIMIT as int, 0x8000_0000_0000_0000);
            crate::complex::lemma_product_bound_asym(
                self.b1 as int, x1 as int, COEF_LIMIT as int, 0x8000_0000_0000_0000);
            crate::complex::lemma_product_bound_asym(
                self.b2 as int, x2 as int, COEF_LIMIT as int, 0x8000_0000_0000_0000);
            crate::complex::lemma_product_bound_asym(
                self.a1 as int, y1 as int, COEF_LIMIT as int, 0x8000_0000_0000_0000);
            crate::complex::lemma_product_bound_asym(
                self.a2 as int, y2 as int, COEF_LIMIT as int, 0x8000_0000_0000_0000);
        }

        // The five products each fit well inside i128, so the running
        // sum never overflows.
        let mut sum: i128 = (self.b0 as i128) * (x0 as i128);
        sum = sum + (self.b1 as i128) * (x1 as i128);
        sum = sum + (self.b2 as i128) * (x2 as i128);
        sum = sum - (self.a1 as i128) * (y1 as i128);
        sum = sum - (self.a2 as i128) * (y2 as i128);

        let q: i128 = sum / (self.a0 as i128);
        proof {
            lemma_qdiv_magnitude(sum as int, self.a0 as int);
        }
        let out: i64 = if q > (i64::MAX as i128) {
            i64::MAX
        } else if q < (i64::MIN as i128) {
            i64::MIN
        } else {
            q as i64
        };

        let _ = hist_push_front(&mut self.y, out);
        proof {
            assert(hist_contents(self.y) =~= shifted(ys0, out));
        }
        out
    }
}

impl ProcessNode<i64, i64> for BiquadFilter {
    open spec fn process_req(&self, input: Seq<i64>, output: Seq<i64>) -> bool {
        self.wf()
    }

    open spec fn process_ens(
        pre: Self,
        post: Self,
        input: Seq<i64>,
        out_pre: Seq<i64>,
        out_post: Seq<i64>,
    ) -> bool {
        let n = prefix_len(input.len() as int, out_pre.len() as int);
        let r = biquad_run(
            pre.b0_spec(),
            pre.b1_spec(),
            pre.b2_spec(),
            pre.a0_spec(),
            pre.a1_spec(),
            pre.a2_spec(),
            pre.xs_spec(),
            pre.ys_spec(),
            input.take(n),
        );
        &&& post.wf()
        &&& Self::same_coefficients(pre, post)
        &&& forall|i: int| 0 <= i < n ==> out_post[i] == r.0[i]
        &&& post.xs_spec() == r.1
        &&& post.ys_spec() == r.2
    }

    fn process_buffer(&mut self, input: &Vec<i64>, output: &mut Vec<i64>) {
        let ghost pre = *self;
        let n: usize = if input.len() < output.len() {
            input.len()
        } else {
            output.len()
        };
        let mut i: usize = 0;
        while i < n
            invariant
                i <= n,
                n == prefix_len(input@.len() as int, old(output)@.len() as int),
                n <= input@.len(),
                output@.len() == old(output)@.len(),
                self.wf(),
                Self::same_coefficients(pre, *self),
                ({
                    let r = biquad_run(
                        pre.b0_spec(),
                        pre.b1_spec(),
                        pre.b2_spec(),
                        pre.a0_spec(),
                        pre.a1_spec(),
                        pre.a2_spec(),
                        pre.xs_spec(),
                        pre.ys_spec(),
                        input@.take(i as int),
                    );
                    &&& forall|k: int| 0 <= k < i ==> output@[k] == r.0[k]
                    &&& self.xs_spec() == r.1
                    &&& self.ys_spec() == r.2
                }),
                forall|k: int|
                    i <= k < output@.len() ==> output@[k] == old(output)@[k],
            decreases n - i,
        {
            let out = self.process_one(input[i]);
            output.set(i, out);
            proof {
                lemma_biquad_run_len(
                    pre.b0_spec(),
                    pre.b1_spec(),
                    pre.b2_spec(),
                    pre.a0_spec(),
                    pre.a1_spec(),
                    pre.a2_spec(),
                    pre.xs_spec(),
                    pre.ys_spec(),
                    input@.take(i as int),
                );
                lemma_biquad_run_len(
                    pre.b0_spec(),
                    pre.b1_spec(),
                    pre.b2_spec(),
                    pre.a0_spec(),
                    pre.a1_spec(),
                    pre.a2_spec(),
                    pre.xs_spec(),
                    pre.ys_spec(),
                    input@.take(i + 1),
                );
                lemma_biquad_run_snoc(
                    pre.b0_spec(),
                    pre.b1_spec(),
                    pre.b2_spec(),
                    pre.a0_spec(),
                    pre.a1_spec(),
                    pre.a2_spec(),
                    pre.xs_spec(),
                    pre.ys_spec(),
                    input@,
                    i as int,
                );
                assert(input@.take(i + 1).take(i as int) =~= input@.take(i as int));
            }
            i = i + 1;
        }
    }
}

} // verus!

verus! {

/// Law: negating all six coefficients leaves every filter step
/// unchanged — the difference equation's numerator and denominator are
/// both negated, and a truncated quotient ignores a shared sign.  This
/// is why construction may store a negated coefficient set whenever
/// `a[0]` comes in negative.
pub proof fn lemma_biquad_sign_invariance(
    b0: int,
    b1: int,
    b2: int,
    a0: int,
    a1: int,
    a2: int,
    xs: Seq<i64>,
    ys: Seq<i64>,
    x: int,
)
    requires
        a0 != 0,
    ensures
        biquad_step(-b0, -b1, -b2, -a0, -a1, -a2, xs, ys, x)
            == biquad_step(b0, b1, b2, a0, a1, a2, xs, ys, x),
{
    let x1 = xs[0] as int;
    let x2 = xs[1] as int;
    let y1 = ys[0] as int;
    let y2 = ys[1] as int;
    let s = b0 * x + b1 * x1 + b2 * x2 - a1 * y1 - a2 * y2;
    assert((-b0) * x + (-b1) * x1 + (-b2) * x2 - (-a1) * y1 - (-a2) * y2 == -s)
        by (nonlinear_arith)
        requires s == b0 * x + b1 * x1 + b2 * x2 - a1 * y1 - a2 * y2,
    ;
    crate::fixed::lemma_qdiv_negated(s, a0);
}

} // verus!
