//! Node definition.
//!
//! A node is the basic unit of computation: a source fills a buffer on
//! demand, a processor turns one buffer into another, a sink consumes a
//! buffer for its side effect.  Buffers are caller-owned; a stage never
//! keeps a reference to one beyond the call, and a processor handed
//! buffers of different lengths touches only the shared prefix and
//! leaves the rest of the output untouched.

use vstd::prelude::*;
use crate::complex::Complex;
use crate::fixed::is_isqrt;

verus! {

/// Length of the prefix shared by an input and an output buffer.
pub open spec fn prefix_len(a: int, b: int) -> int {
    if a < b {
        a
    } else {
        b
    }
}

/// A stage that produces samples on demand.
///
/// `write_buffer` fills the buffer from the front, keeps its length, and
/// reports how many samples it wrote; a finite source reports fewer than
/// the buffer length once exhausted.
pub trait SourceNode<T> where Self: Sized {
    /// What this source demands of its state and of the buffer.
    spec fn source_req(&self, buffer: Seq<T>) -> bool;

    /// What one call guarantees: relates the state and buffer before
    /// and after, and the count of samples written.
    spec fn source_ens(pre: Self, post: Self, buf_pre: Seq<T>, buf_post: Seq<T>, count: usize) -> bool
        where
            Self: Sized,
    ;

    fn write_buffer(&mut self, buffer: &mut Vec<T>) -> (count: usize)
        requires
            old(self).source_req(old(buffer)@),
        ensures
            final(buffer)@.len() == old(buffer)@.len(),
            count <= final(buffer)@.len(),
            Self::source_ens(*old(self), *final(self), old(buffer)@, final(buffer)@, count),
    ;
}

/// A stage that consumes a buffer for a side effect and produces no
/// buffer output.
pub trait SinkNode<T> {
    /// What this sink demands of its state and of the buffer.
    spec fn sink_req(&self, buffer: Seq<T>) -> bool;

    fn read_buffer(&mut self, buffer: &Vec<T>)
        requires
            old(self).sink_req(buffer@),
    ;
}

/// A stage that reads one buffer and writes another, keeping whatever
/// state it needs for continuity across calls.
///
/// Every processor obeys the shared-prefix discipline: it writes only
/// the first `prefix_len(input, output)` samples of the output and
/// leaves the tail exactly as it found it.
pub trait ProcessNode<I, O> where Self: Sized {
    /// What this processor demands of its state and of the buffers.
    spec fn process_req(&self, input: Seq<I>, output: Seq<O>) -> bool;

    /// What one call guarantees: relates the state and output buffer
    /// before and after the call to the input buffer.
    spec fn process_ens(pre: Self, post: Self, input: Seq<I>, out_pre: Seq<O>, out_post: Seq<O>) -> bool
        where
            Self: Sized,
    ;

    fn process_buffer(&mut self, input: &Vec<I>, output: &mut Vec<O>)
        requires
            old(self).process_req(input@, old(output)@),
        ensures
            final(output)@.len() == old(output)@.len(),
            forall|i: int|
                prefix_len(input@.len() as int, old(output)@.len() as int) <= i
                    < final(output)@.len() ==> final(output)@[i] == old(output)@[i],
            Self::process_ens(*old(self), *final(self), input@, old(output)@, final(output)@),
    ;
}

/// Real -> complex converter: each real sample becomes a complex sample
/// with zero imaginary part.  Pure and stateless.
pub struct RealToComplex {}

impl RealToComplex {
    pub fn new() -> RealToComplex {
        RealToComplex {}
    }
}

impl ProcessNode<i64, Complex> for RealToComplex {
    open spec fn process_req(&self, input: Seq<i64>, output: Seq<Complex>) -> bool {
        true
    }

    open spec fn process_ens(
        pre: Self,
        post: Self,
        input: Seq<i64>,
        out_pre: Seq<Complex>,
        out_post: Seq<Complex>,
    ) -> bool {
        forall|i: int|
            0 <= i < prefix_len(input.len() as int, out_pre.len() as int)
                ==> out_post[i] == (Complex { re: input[i], im: 0i64 })
    }

    fn process_buffer(&mut self, input: &Vec<i64>, output: &mut Vec<Complex>) {
        let n: usize = if input.len() < output.len() {
            input.len()
        } else {
            output.len()
        };
        let mut i: usize = 0;
        while i < n
            invariant
                i <= n,
                n == prefix_len(input@.len() as int, old(output)@.len() as int),
                output@.len() == old(output)@.len(),
                forall|k: int| 0 <= k < i ==> output@[k] == (Complex { re: input@[k], im: 0i64 }),
                forall|k: int| i <= k < output@.len() ==> output@[k] == old(output)@[k],
            decreases n - i,
        {
            output.set(i, Complex { re: input[i], im: 0 });
            i = i + 1;
        }
    }
}

/// Complex -> real converter: each complex sample becomes its magnitude,
/// rounded down to a whole sample.  Pure and stateless.
pub struct ComplexToReal {}

impl ComplexToReal {
    pub fn new() -> ComplexToReal {
        ComplexToReal {}
    }
}

impl ProcessNode<Complex, i64> for ComplexToReal {
    /// Component bound that keeps each squared magnitude inside `u64`.
    open spec fn process_req(&self, input: Seq<Complex>, output: Seq<i64>) -> bool {
        forall|i: int|
            0 <= i < input.len() ==> (#[trigger] input[i]).bounded(crate::SAMPLE_LIMIT as int)
    }

    open spec fn process_ens(
        pre: Self,
        post: Self,
        input: Seq<Complex>,
        out_pre: Seq<i64>,
        out_post: Seq<i64>,
    ) -> bool {
        forall|i: int|
            0 <= i < prefix_len(input.len() as int, out_pre.len() as int)
                ==> is_isqrt(out_post[i] as int, (#[trigger] input[i]).norm_sqr_spec())
    }

    fn process_buffer(&mut self, input: &Vec<Complex>, output: &mut Vec<i64>) {
        let n: usize = if input.len() < output.len() {
            input.len()
        } else {
            output.len()
        };
        let mut i: usize = 0;
        while i < n
            invariant
                i <= n,
                n <= input@.len(),
                n == prefix_len(input@.len() as int, old(output)@.len() as int),
                output@.len() == old(output)@.len(),
                forall|k: int|
                    0 <= k < input@.len()
                        ==> (#[trigger] input@[k]).bounded(crate::SAMPLE_LIMIT as int),
                forall|k: int|
                    0 <= k < i ==> is_isqrt(output@[k] as int, (#[trigger] input@[k]).norm_sqr_spec()),
                forall|k: int| i <= k < output@.len() ==> output@[k] == old(output)@[k],
            decreases n - i,
        {
            let nsq: u128 = input[i].norm_sqr();
            proof {
                crate::complex::lemma_product_bound(
                    input@[i as int].re as int,
                    input@[i as int].re as int,
                    crate::SAMPLE_LIMIT as int,
                );
                crate::complex::lemma_product_bound(
                    input@[i as int].im as int,
                    input@[i as int].im as int,
                    crate::SAMPLE_LIMIT as int,
                );
            }
            let mag: u64 = crate::fixed::isqrt(nsq as u64);
            proof {
                assert(mag as int * mag as int <= nsq as int);
                assert(mag < 0x8000_0000_0000_0000) by (nonlinear_arith)
                    requires
                        mag as int * mag as int <= nsq as int,
                        nsq as int <= 2 * ((crate::SAMPLE_LIMIT as int) * (crate::SAMPLE_LIMIT as int)),
                ;
            }
            output.set(i, mag as i64);
            i = i + 1;
        }
    }
}

} // verus!
