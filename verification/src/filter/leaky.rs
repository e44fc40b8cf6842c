//! Leaky integrator, also known as exponential smoothing:
//! `y[n] = alpha * x[n] + (1 - alpha) * y[n-1]`.
//!
//! The smoothing constant `alpha` is the fraction
//! `alpha_num / alpha_den`; each step is quantized by truncating
//! division, so the output always lies between the previous output and
//! the new input.

use vstd::prelude::*;
use crate::fixed::{qdiv, lemma_qdiv_between};
use crate::node::prefix_len;

verus! {

/// One smoothing step: `(num * v + (den - num) * last) / den`,
/// truncated toward zero.
pub open spec fn leaky_step(num: int, den: int, last: int, v: int) -> int {
    qdiv(num * v + (den - num) * last, den)
}

/// The outputs of feeding `input` one sample at a time, starting from
/// `last`.
pub open spec fn leaky_run(num: int, den: int, last: int, input: Seq<i64>) -> Seq<int>
    decreases input.len(),
{
    if input.len() == 0 {
        Seq::empty()
    } else {
        let y = leaky_step(num, den, last, input[0] as int);
        seq![y] + leaky_run(num, den, y, input.drop_first())
    }
}

/// A quantized step stays between its two operands.
pub proof fn lemma_leaky_step_between(num: int, den: int, last: int, v: int)
    requires
        0 <= num <= den,
        den >= 1,
    ensures
        vstd::math::min(last, v) <= leaky_step(num, den, last, v) <= vstd::math::max(last, v),
{
    let m = vstd::math::min(last, v);
    let mm = vstd::math::max(last, v);
    let s = num * v + (den - num) * last;
    assert(den * m <= s && s <= den * mm) by (nonlinear_arith)
        requires
            0 <= num <= den,
            den >= 1,
            m <= v <= mm,
            m <= last <= mm,
            s == num * v + (den - num) * last,
    ;
    lemma_qdiv_between(s, den, m, mm);
}

/// First-order exponential smoother with a single carried output value.
pub struct LeakyIntegrator {
    alpha_num: i64,
    alpha_den: i64,
    last_value: i64,
}

impl LeakyIntegrator {
    /// Numerator of the smoothing constant.
    pub closed spec fn num_spec(&self) -> int {
        self.alpha_num as int
    }

    /// Denominator of the smoothing constant.
    pub closed spec fn den_spec(&self) -> int {
        self.alpha_den as int
    }

    /// The carried output value.
    pub closed spec fn last_spec(&self) -> int {
        self.last_value as int
    }

    /// The smoothing constant is a fraction in `[0, 1]`.
    pub open spec fn wf(&self) -> bool {
        0 <= self.num_spec() <= self.den_spec() && self.den_spec() >= 1
    }

    /// Create a new filter with smoothing constant
    /// `alpha_num / alpha_den` and initial output `init_value`.
    pub fn new(alpha_num: i64, alpha_den: i64, init_value: i64) -> (f: LeakyIntegrator)
        requires
            0 <= alpha_num <= alpha_den,
            alpha_den >= 1,
        ensures
            f.wf(),
            f.num_spec() == alpha_num,
            f.den_spec() == alpha_den,
            f.last_spec() == init_value,
    {
        LeakyIntegrator { alpha_num, alpha_den, last_value: init_value }
    }

    /// Process the next value.
    pub fn next_value(&mut self, v: i64) -> (out: i64)
        requires
            old(self).wf(),
        ensures
            final(self).wf(),
            final(self).num_spec() == old(self).num_spec(),
            final(self).den_spec() == old(self).den_spec(),
            out == leaky_step(old(self).num_spec(), old(self).den_spec(), old(self).last_spec(), v as int),
            final(self).last_spec() == out,
    {
        proof {
            lemma_leaky_step_between(
                self.alpha_num as int,
                self.alpha_den as int,
                self.last_value as int,
                v as int,
            );
        }
        let num: i128 = self.alpha_num as i128;
        let den: i128 = self.alpha_den as i128;
        proof {
            crate::complex::lemma_product_bound(num as int, v as int, 0x8000_0000_0000_0000);
            crate::complex::lemma_product_bound(
                den as int - num as int,
                self.last_value as int,
                0x8000_0000_0000_0000,
            );
        }
        let p1: i128 = num * (v as i128);
        let p2: i128 = (den - num) * (self.last_value as i128);
        proof {
            assert(-(den as int * 0x8000_0000_0000_0000) <= p1 as int + p2 as int
                <= den as int * 0x8000_0000_0000_0000) by (nonlinear_arith)
                requires
                    p1 as int == num as int * (v as int),
                    p2 as int == (den as int - num as int) * (self.last_value as int),
                    0 <= num as int <= den as int,
                    -0x8000_0000_0000_0000 <= v as int <= 0x7fff_ffff_ffff_ffff,
                    -0x8000_0000_0000_0000 <= self.last_value as int <= 0x7fff_ffff_ffff_ffff,
            ;
            assert(den as int * 0x8000_0000_0000_0000
                <= 0x7fff_ffff_ffff_ffff * 0x8000_0000_0000_0000) by (nonlinear_arith)
                requires
                    0 <= den as int <= 0x7fff_ffff_ffff_ffff,
            ;
        }
        let s: i128 = p1 + p2;
        let q: i128 = s / den;
        let out: i64 = q as i64;
        self.last_value = out;
        out
    }

    /// Process a whole buffer through the smoother.
    pub fn process_buffer(&mut self, input_buffer: &Vec<i64>, output_buffer: &mut Vec<i64>)
        requires
            old(self).wf(),
        ensures
            final(self).wf(),
            final(self).num_spec() == old(self).num_spec(),
            final(self).den_spec() == old(self).den_spec(),
            final(output_buffer)@.len() == old(output_buffer)@.len(),
            ({
                let n = prefix_len(input_buffer@.len() as int, old(output_buffer)@.len() as int);
                let outs = leaky_run(
                    old(self).num_spec(),
                    old(self).den_spec(),
                    old(self).last_spec(),
                    input_buffer@.take(n),
                );
                &&& forall|i: int| 0 <= i < n ==> final(output_buffer)@[i] == outs[i]
                &&& final(self).last_spec() == if n == 0 {
                    old(self).last_spec()
                } else {
                    outs[n - 1]
                }
                &&& forall|i: int|
                    n <= i < final(output_buffer)@.len()
                        ==> final(output_buffer)@[i] == old(output_buffer)@[i]
            }),
    {
        let ghost pre = *self;
        let n: usize = if input_buffer.len() < output_buffer.len() {
            input_buffer.len()
        } else {
            output_buffer.len()
        };
        let mut i: usize = 0;
        while i < n
            invariant
                i <= n,
                n == prefix_len(input_buffer@.len() as int, old(output_buffer)@.len() as int),
                n <= input_buffer@.len(),
                output_buffer@.len() == old(output_buffer)@.len(),
                self.wf(),
                self.num_spec() == pre.num_spec(),
                self.den_spec() == pre.den_spec(),
                ({
                    let outs = leaky_run(
                        pre.num_spec(),
                        pre.den_spec(),
                        pre.last_spec(),
                        input_buffer@.take(i as int),
                    );
                    &&& forall|k: int| 0 <= k < i ==> output_buffer@[k] == outs[k]
                    &&& self.last_spec() == if i == 0 {
                        pre.last_spec()
                    } else {
                        outs[i - 1]
                    }
                }),
                forall|k: int|
                    i <= k < output_buffer@.len() ==> output_buffer@[k] == old(output_buffer)@[k],
            decreases n - i,
        {
            let out: i64 = self.next_value(input_buffer[i]);
            output_buffer.set(i, out);
            proof {
                lemma_leaky_run_len(
                    pre.num_spec(),
                    pre.den_spec(),
                    pre.last_spec(),
                    input_buffer@.take(i as int),
                );
                lemma_leaky_run_len(
                    pre.num_spec(),
                    pre.den_spec(),
                    pre.last_spec(),
                    input_buffer@.take(i + 1),
                );
                lemma_leaky_run_snoc(
                    pre.num_spec(),
                    pre.den_spec(),
                    pre.last_spec(),
                    input_buffer@,
                    i as int,
                );
            }
            i = i + 1;
        }
    }
}

/// A run produces one output per input sample.
pub proof fn lemma_leaky_run_len(num: int, den: int, last: int, input: Seq<i64>)
    ensures
        leaky_run(num, den, last, input).len() == input.len(),
    decreases input.len(),
{
    if input.len() > 0 {
        lemma_leaky_run_len(
            num,
            den,
            leaky_step(num, den, last, input[0] as int),
            input.drop_first(),
        );
    }
}

/// Extending the input by one sample appends exactly one smoothing step
/// to the run.
pub proof fn lemma_leaky_run_snoc(num: int, den: int, last: int, input: Seq<i64>, i: int)
    requires
        0 <= i < input.len(),
    ensures
        ({
            let prev = leaky_run(num, den, last, input.take(i));
            let state = if i == 0 {
                last
            } else {
                prev[i - 1]
            };
            leaky_run(num, den, last, input.take(i + 1))
                == prev + seq![leaky_step(num, den, state, input[i] as int)]
        }),
    decreases i,
{
    let pre = input.take(i);
    let cur = input.take(i + 1);
    lemma_leaky_run_len(num, den, last, pre);
    let y = leaky_step(num, den, last, input[0] as int);
    if i == 0 {
        assert(cur.drop_first() =~= Seq::<i64>::empty());
        lemma_leaky_run_len(num, den, y, cur.drop_first());
        assert(cur[0] == input[0]);
        assert(leaky_run(num, den, last, cur) =~= seq![y]);
        assert(leaky_run(num, den, last, pre) =~= Seq::<int>::empty());
    } else {
        let shifted = input.subrange(1, input.len() as int);
        assert(cur.drop_first() =~= shifted.take(i));
        assert(pre.drop_first() =~= shifted.take(i - 1));
        assert(pre[0] == input[0] && cur[0] == input[0]);
        lemma_leaky_run_snoc(num, den, y, shifted, i - 1);
        lemma_leaky_run_len(num, den, y, shifted.take(i - 1));
        assert(shifted[i - 1] == input[i]);
        assert(leaky_run(num, den, last, cur)
            == seq![y] + leaky_run(num, den, y, shifted.take(i)));
        assert(leaky_run(num, den, last, pre)
            == seq![y] + leaky_run(num, den, y, shifted.take(i - 1)));
        let prev_inner = leaky_run(num, den, y, shifted.take(i - 1));
        let state_inner = if i - 1 == 0 {
            y
        } else {
            prev_inner[i - 2]
        };
        let prev = leaky_run(num, den, last, pre);
        let state = prev[i - 1];
        assert(state == state_inner);
        assert(leaky_run(num, den, last, cur)
            =~= prev + seq![leaky_step(num, den, state, input[i] as int)]);
    }
}

} // verus!

verus! {

/// Law: feeding the smoother a constant value `v` never moves the output
/// away from `v`; it moves strictly closer whenever the remaining gap
/// exceeds the quantization dead band `den / num`; and an output already
/// at `v` stays at `v` exactly.
pub proof fn lemma_leaky_convergence(num: int, den: int, last: int, v: int)
    requires
        1 <= num < den,
    ensures
        vstd::math::abs(leaky_step(num, den, last, v) - v) <= vstd::math::abs(last - v),
        num * vstd::math::abs(last - v) > den
            ==> vstd::math::abs(leaky_step(num, den, last, v) - v) < vstd::math::abs(last - v),
        last == v ==> leaky_step(num, den, last, v) == v,
{
    let y = leaky_step(num, den, last, v);
    let s = num * v + (den - num) * last;
    lemma_leaky_step_between(num, den, last, v);
    if last == v {
        assert(s == den * v) by (nonlinear_arith)
            requires s == num * v + (den - num) * last, last == v,
        ;
        if v >= 0 {
            vstd::arithmetic::div_mod::lemma_div_multiples_vanish(v, den);
            assert(y == v);
        } else {
            vstd::arithmetic::div_mod::lemma_div_multiples_vanish(-v, den);
            assert(y == v);
        }
    }
    if num * vstd::math::abs(last - v) > den {
        crate::fixed::lemma_qdiv_bounds(s, den);
        assert(s - den < den * y < s + den) by (nonlinear_arith)
            requires
                den >= 1,
                s >= 0 ==> s - den < den * qdiv(s, den) <= s,
                s <= 0 ==> s <= den * qdiv(s, den) < s + den,
                y == qdiv(s, den),
        ;
        assert(s - den * v == (den - num) * (last - v)) by (nonlinear_arith)
            requires s == num * v + (den - num) * last,
        ;
        if last > v {
            assert(den * (y - v) < den * (last - v)) by (nonlinear_arith)
                requires
                    den * y < s + den,
                    s - den * v == (den - num) * (last - v),
                    num * (last - v) > den,
                    last - v > 0,
                    0 < num < den,
            ;
            assert(y - v < last - v) by (nonlinear_arith)
                requires den >= 1, den * (y - v) < den * (last - v),
            ;
        } else {
            assert(den * (v - y) < den * (v - last)) by (nonlinear_arith)
                requires
                    den * y > s - den,
                    s - den * v == (den - num) * (last - v),
                    num * (v - last) > den,
                    v - last > 0,
                    0 < num < den,
            ;
            assert(v - y < v - last) by (nonlinear_arith)
                requires den >= 1, den * (v - y) < den * (v - last),
            ;
        }
    }
}

} // verus!
