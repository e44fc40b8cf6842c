//! Frequency shifting: multiply a complex signal, sample by sample,
//! by a running sinusoid.
//!
//! The offset sinusoid is played from a caller-supplied one-period Q16
//! table (its sample values are irrational), and the phase survives
//! across calls, so consecutive buffers continue the shift seamlessly.

use vstd::prelude::*;
use crate::SCALE;
use crate::complex::Complex;
use crate::fixed::{qdiv, clamped};
use crate::generator::{wrap_inc, lemma_wrap_step};
use crate::node::{ProcessNode, prefix_len};

verus! {

/// A complex sample scaled by a Q16 factor, component by component.
pub open spec fn scaled_by(c: Complex, t: int) -> Complex {
    Complex {
        re: clamped(qdiv(c.re * t, SCALE as int), i64::MIN as int, i64::MAX as int) as i64,
        im: clamped(qdiv(c.im * t, SCALE as int), i64::MIN as int, i64::MAX as int) as i64,
    }
}

/// Shift the frequency of a signal by multiplying it with an offset
/// sinusoid.
pub struct FrequencyShift {
    step_pos: usize,
    table: Vec<i64>,
}

impl FrequencyShift {
    /// The one-period table of the offset sinusoid.
    pub closed spec fn table_spec(&self) -> Seq<i64> {
        self.table@
    }

    /// The phase position inside the table.
    pub closed spec fn pos_spec(&self) -> int {
        self.step_pos as int
    }

    /// The phase always lies inside the table.
    pub open spec fn wf(&self) -> bool {
        self.table_spec().len() >= 1 && 0 <= self.pos_spec() < self.table_spec().len()
    }

    /// Create a new shifting stage over one period of the offset
    /// sinusoid's samples.
    pub fn new(table: Vec<i64>) -> (s: FrequencyShift)
        requires
            table@.len() >= 1,
        ensures
            s.wf(),
            s.table_spec() == table@,
            s.pos_spec() == 0,
    {
        FrequencyShift { step_pos: 0, table }
    }
}

impl ProcessNode<Complex, Complex> for FrequencyShift {
    open spec fn process_req(&self, input: Seq<Complex>, output: Seq<Complex>) -> bool {
        self.wf()
    }

    open spec fn process_ens(
        pre: Self,
        post: Self,
        input: Seq<Complex>,
        out_pre: Seq<Complex>,
        out_post: Seq<Complex>,
    ) -> bool {
        let p = prefix_len(input.len() as int, out_pre.len() as int);
        let period = pre.table_spec().len() as int;
        &&& post.table_spec() == pre.table_spec()
        &&& post.wf()
        &&& post.pos_spec() == (pre.pos_spec() + p) % period
        &&& forall|i: int|
            0 <= i < p ==> out_post[i] == scaled_by(
                input[i],
                pre.table_spec()[(pre.pos_spec() + i) % period] as int,
            )
    }

    fn process_buffer(&mut self, input: &Vec<Complex>, output: &mut Vec<Complex>) {
        let ghost pre_pos = self.pos_spec();
        let ghost table = self.table_spec();
        let limit: usize = self.table.len();
        proof {
            vstd::arithmetic::div_mod::lemma_small_mod(pre_pos as nat, table.len() as nat);
        }
        let n: usize = if input.len() < output.len() {
            input.len()
        } else {
            output.len()
        };
        let mut i: usize = 0;
        while i < n
            invariant
                i <= n,
                n == prefix_len(input@.len() as int, old(output)@.len() as int),
                n <= input@.len(),
                output@.len() == old(output)@.len(),
                self.wf(),
                self.table_spec() == table,
                limit == table.len(),
                pre_pos >= 0,
                self.pos_spec() == (pre_pos + i) % (table.len() as int),
                forall|k: int|
                    0 <= k < i ==> output@[k] == scaled_by(
                        input@[k],
                        table[(pre_pos + k) % (table.len() as int)] as int,
                    ),
                forall|k: int| i <= k < output@.len() ==> output@[k] == old(output)@[k],
            decreases n - i,
        {
            let t: i64 = self.table[self.step_pos];
            let c: Complex = input[i];
            let re: i64 = crate::fixed::mul_div_q(c.re, t, SCALE);
            let im: i64 = crate::fixed::mul_div_q(c.im, t, SCALE);
            output.set(i, Complex { re, im });
            self.step_pos = wrap_inc(self.step_pos, limit);
            proof {
                lemma_wrap_step(pre_pos, i as int, table.len() as int);
            }
            i = i + 1;
        }
    }
}

} // verus!
