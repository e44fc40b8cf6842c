//! Helper functions for discrete signals in frequency domain.
//!
//! A frequency is reported exactly, as the rational number
//! `num / den` hertz, so that bin arithmetic loses nothing.

use vstd::prelude::*;
use crate::complex::Complex;
use crate::vectors::argmax;

verus! {

/// An exact frequency in hertz: the fraction `num / den`.
#[derive(Clone, Copy, Debug, PartialEq, Eq, Structural)]
pub struct Frequency {
    pub num: usize,
    pub den: usize,
}

/// The physically meaningful bin for component `i` of an `data_len`
/// point spectrum: indices at or above the Nyquist bin fold back onto
/// their mirror image.
pub open spec fn folded_index(data_len: int, i: int) -> int {
    let pos = i % data_len;
    if pos < data_len / 2 {
        pos
    } else {
        data_len - pos
    }
}

/// `idx` is the first index of largest squared magnitude in `xs`.
pub open spec fn is_first_max(xs: Seq<Complex>, idx: int) -> bool {
    &&& 0 <= idx < xs.len()
    &&& forall|j: int| 0 <= j < xs.len() ==> xs[j].norm_sqr_spec() <= xs[idx].norm_sqr_spec()
    &&& forall|j: int| 0 <= j < idx ==> xs[j].norm_sqr_spec() < xs[idx].norm_sqr_spec()
}

/// Calculated frequency of a given component: bin `i` of a
/// `data_len`-point spectrum taken at `sample_rate` samples per second
/// lies at `folded_index * sample_rate / data_len` hertz.
pub fn item_freq(data_len: usize, sample_rate: usize, i: usize) -> (r: Frequency)
    requires
        data_len > 0,
        data_len * sample_rate <= usize::MAX,
    ensures
        r.num == folded_index(data_len as int, i as int) * sample_rate,
        r.den == data_len,
{
    let pos: usize = i % data_len;
    let half_pos: usize = if pos < data_len / 2 {
        pos
    } else {
        data_len - pos
    };
    proof {
        assert(half_pos * sample_rate <= data_len * sample_rate) by (nonlinear_arith)
            requires 0 <= half_pos as int <= data_len as int, sample_rate >= 0,
        ;
    }
    Frequency { num: half_pos * sample_rate, den: data_len }
}

/// Return the dominant frequency of spectrogram data: the frequency of
/// the first bin of largest magnitude, folded past Nyquist.  Ties keep
/// the earliest bin.
pub fn max_freq(data: &Vec<Complex>, sample_rate: usize) -> (r: Frequency)
    requires
        data@.len() > 0,
        data@.len() * sample_rate <= usize::MAX,
    ensures
        r.den == data@.len(),
        exists|idx: int|
            #[trigger] is_first_max(data@, idx)
                && r.num == folded_index(data@.len() as int, idx) * sample_rate,
{
    let idx: usize = argmax(data);
    let r = item_freq(data.len(), sample_rate, idx);
    proof {
        assert(is_first_max(data@, idx as int));
        assert(0 <= (idx as int) % (data@.len() as int) < data@.len());
        vstd::arithmetic::div_mod::lemma_small_mod(idx as nat, data@.len() as nat);
    }
    r
}

} // verus!
