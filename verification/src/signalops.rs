//! Per-sample signal operations.

use vstd::prelude::*;
use crate::SCALE;
use crate::fixed::{qdiv, clamped};
use crate::node::{ProcessNode, prefix_len};

verus! {

/// Change signal amplitude: each sample is scaled by a Q16 gain.
pub struct AmplitudeOp {
    volume: i64,
}

impl AmplitudeOp {
    /// The Q16 gain.
    pub closed spec fn volume_spec(&self) -> int {
        self.volume as int
    }

    pub fn new(volume: i64) -> (op: AmplitudeOp)
        ensures
            op.volume_spec() == volume,
    {
        AmplitudeOp { volume }
    }

    /// One sample through the gain.
    pub fn process(&self, sample: i64) -> (out: i64)
        ensures
            out as int == clamped(
                qdiv(self.volume_spec() * sample, SCALE as int),
                i64::MIN as int,
                i64::MAX as int,
            ),
    {
        crate::fixed::mul_div_q(self.volume, sample, SCALE)
    }
}

/// Multiply every buffer sample by a constant Q16 gain.
pub struct MultiplyConst {
    value: i64,
}

impl MultiplyConst {
    /// The Q16 gain.
    pub closed spec fn value_spec(&self) -> int {
        self.value as int
    }

    pub fn new(value: i64) -> (op: MultiplyConst)
        ensures
            op.value_spec() == value,
    {
        MultiplyConst { value }
    }
}

impl ProcessNode<i64, i64> for MultiplyConst {
    open spec fn process_req(&self, input: Seq<i64>, output: Seq<i64>) -> bool {
        true
    }

    open spec fn process_ens(
        pre: Self,
        post: Self,
        input: Seq<i64>,
        out_pre: Seq<i64>,
        out_post: Seq<i64>,
    ) -> bool {
        &&& post.value_spec() == pre.value_spec()
        &&& forall|i: int|
            0 <= i < prefix_len(input.len() as int, out_pre.len() as int)
                ==> out_post[i] == clamped(
                qdiv(pre.value_spec() * input[i], SCALE as int),
                i64::MIN as int,
                i64::MAX as int,
            )
    }

    fn process_buffer(&mut self, input: &Vec<i64>, output: &mut Vec<i64>) {
        let n: usize = if input.len() < output.len() {
            input.len()
        } else {
            output.len()
        };
        let mut i: usize = 0;
        while i < n
            invariant
                i <= n,
                n == prefix_len(input@.len() as int, old(output)@.len() as int),
                n <= input@.len(),
                output@.len() == old(output)@.len(),
                self == old(self),
                forall|k: int|
                    0 <= k < i ==> output@[k] == clamped(
                        qdiv(self.value_spec() * input@[k], SCALE as int),
                        i64::MIN as int,
                        i64::MAX as int,
                    ),
                forall|k: int|
                    i <= k < output@.len() ==> output@[k] == old(output)@[k],
            decreases n - i,
        {
            let v: i64 = crate::fixed::mul_div_q(self.value, input[i], SCALE);
            output.set(i, v);
            i = i + 1;
        }
    }
}

} // verus!
