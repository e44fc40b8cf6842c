//! Standard window functions.
//!
//! A window is a table of per-index Q16 coefficients, applied to a
//! buffer by element-wise multiplication followed by the fixed-point
//! rescale `/ SCALE`.  The rational windows (rectangular, triangular,
//! Welch) are generated here exactly; the trigonometric ones (Hann,
//! Hamming, Blackman) are exact affine combinations of a caller-supplied
//! cosine table holding `cos(2*pi*i/(N-1))` in Q16.

use vstd::prelude::*;
use crate::SCALE;
use crate::fixed::{qdiv, clamped, lemma_qdiv_magnitude, lemma_qdiv_between};

verus! {

/// What applying coefficient table `w` to `input` produces, element by
/// element.
pub open spec fn window_applied(w: Seq<i64>, input: Seq<i64>) -> Seq<int> {
    Seq::new(
        input.len(),
        |i: int| clamped(qdiv(input[i] * w[i], SCALE as int), i64::MIN as int, i64::MAX as int),
    )
}

/// Length of the prefix shared by a window table, an input buffer
/// and an output buffer.
pub open spec fn shared_len(w: Seq<i64>, input: Seq<i64>, output: Seq<i64>) -> int {
    crate::node::prefix_len(
        crate::node::prefix_len(w.len() as int, input.len() as int),
        output.len() as int,
    )
}

/// A window function.  Can be applied to a signal.
pub struct Window {
    samples: Vec<i64>,
}

impl Window {
    /// The coefficient table, in Q16.
    pub closed spec fn coeffs(&self) -> Seq<i64> {
        self.samples@
    }

    /// Wrap a ready coefficient table as a window.
    pub fn from_coefficients(samples: Vec<i64>) -> (w: Window)
        ensures
            w.coeffs() == samples@,
    {
        Window { samples }
    }

    /// Returns the length of the window, in frames.
    pub fn len(&self) -> (n: usize)
        ensures
            n == self.coeffs().len(),
    {
        self.samples.len()
    }

    /// The coefficient table, for inspection.
    pub fn as_slice(&self) -> (r: &Vec<i64>)
        ensures
            r@ == self.coeffs(),
    {
        &self.samples
    }

    /// Apply this window to the given frame: each output sample over
    /// the prefix shared by the window, the input and the output is the
    /// input sample scaled by the matching coefficient; the rest of the
    /// output is left exactly as it was.
    pub fn apply(&self, input: &Vec<i64>, output: &mut Vec<i64>)
        ensures
            final(output)@.len() == old(output)@.len(),
            forall|i: int|
                0 <= i < shared_len(self.coeffs(), input@, old(output)@)
                    ==> final(output)@[i] == window_applied(self.coeffs(), input@)[i],
            forall|i: int|
                shared_len(self.coeffs(), input@, old(output)@) <= i < final(output)@.len()
                    ==> final(output)@[i] == old(output)@[i],
    {
        let mut n: usize = if self.samples.len() < input.len() {
            self.samples.len()
        } else {
            input.len()
        };
        if output.len() < n {
            n = output.len();
        }
        let mut i: usize = 0;
        while i < n
            invariant
                i <= n,
                n == shared_len(self.coeffs(), input@, old(output)@),
                output@.len() == old(output)@.len(),
                forall|k: int|
                    0 <= k < i ==> output@[k] == window_applied(self.coeffs(), input@)[k],
                forall|k: int| i <= k < output@.len() ==> output@[k] == old(output)@[k],
            decreases n - i,
        {
            let v: i64 = crate::fixed::mul_div_q(input[i], self.samples[i], SCALE);
            output.set(i, v);
            i = i + 1;
        }
    }
}

/// Law (windowing identity): a window whose coefficients are all one
/// leaves every buffer of its width exactly as it was.
pub proof fn lemma_rectangular_identity(w: Seq<i64>, input: Seq<i64>)
    requires
        w.len() == input.len(),
        forall|i: int| 0 <= i < w.len() ==> w[i] == SCALE,
    ensures
        forall|i: int| 0 <= i < input.len() ==> window_applied(w, input)[i] == input[i],
{
    assert forall|i: int| 0 <= i < input.len() implies window_applied(w, input)[i] == input[i] by {
        let v = input[i] as int;
        if v >= 0 {
            vstd::arithmetic::div_mod::lemma_div_multiples_vanish(v, SCALE as int);
            assert(v * SCALE == SCALE * v) by (nonlinear_arith);
        } else {
            vstd::arithmetic::div_mod::lemma_div_multiples_vanish(-v, SCALE as int);
            assert(-(v * SCALE) == SCALE * -v) by (nonlinear_arith);
        }
    }
}

/// Compute a simple rectangular window, also called boxcar window:
/// every coefficient is one.
pub fn rectangular(width: usize) -> (w: Window)
    ensures
        w.coeffs().len() == width,
        forall|i: int| 0 <= i < width ==> w.coeffs()[i] == SCALE,
{
    let mut samples: Vec<i64> = Vec::new();
    let mut i: usize = 0;
    while i < width
        invariant
            i <= width,
            samples@.len() == i as int,
            forall|k: int| 0 <= k < i ==> samples@[k] == SCALE,
        decreases width - i,
    {
        samples.push(SCALE);
        i = i + 1;
    }
    Window { samples }
}

/// Denominator `N - 1` of the window formulas, taken as one for the
/// single-sample window so that nothing divides by zero.
pub open spec fn span_of(width: int) -> int {
    if width <= 1 {
        1
    } else {
        width - 1
    }
}

/// The triangular coefficient at index `i`: a linear ramp up to the
/// center, then back down.
pub open spec fn triangular_coeff(width: int, i: int) -> int {
    let t = qdiv(2 * SCALE * i, span_of(width));
    if i < width / 2 {
        t
    } else {
        2 * SCALE - t
    }
}

/// Creates a triangular window.
pub fn triangular(width: usize) -> (w: Window)
    requires
        width <= 0x8000_0000,
    ensures
        w.coeffs().len() == width,
        forall|i: int| 0 <= i < width ==> w.coeffs()[i] == triangular_coeff(width as int, i),
{
    let mut samples: Vec<i64> = Vec::new();
    let span: i64 = if width <= 1 {
        1
    } else {
        (width - 1) as i64
    };
    let mut i: usize = 0;
    while i < width
        invariant
            i <= width,
            width <= 0x8000_0000,
            span == span_of(width as int),
            1 <= span,
            samples@.len() == i as int,
            forall|k: int| 0 <= k < i ==> samples@[k] == triangular_coeff(width as int, k),
        decreases width - i,
    {
        let t: i64 = crate::fixed::mul_div_q(2 * SCALE, i as i64, span);
        proof {
            assert(0 <= 2 * (SCALE as int) * (i as int)
                && 2 * (SCALE as int) * (i as int) <= span as int * (2 * (SCALE as int)))
                by (nonlinear_arith)
                requires 0 <= i as int <= span as int, SCALE > 0, span >= 1,
            ;
            lemma_qdiv_between(2 * (SCALE as int) * (i as int), span as int, 0, 2 * (SCALE as int));
            assert((2 * SCALE) as int * (i as int) == 2 * (SCALE as int) * (i as int));
        }
        let v: i64 = if i < width / 2 {
            t
        } else {
            2 * SCALE - t
        };
        samples.push(v);
        i = i + 1;
    }
    Window { samples }
}

/// The Welch coefficient at index `i`:
/// `1 - ((i - (N-1)/2) / ((N-1)/2))^2`, written over integers as
/// `1 - ((2i - (N-1))^2 / (N-1)^2)`.
pub open spec fn welch_coeff(width: int, i: int) -> int {
    let d = 2 * i - (width - 1);
    SCALE - qdiv(SCALE * d * d, span_of(width) * span_of(width))
}

/// Create the Welch window.
pub fn welch(width: usize) -> (w: Window)
    requires
        width <= 0x8000_0000,
    ensures
        w.coeffs().len() == width,
        forall|i: int| 0 <= i < width ==> w.coeffs()[i] == welch_coeff(width as int, i),
{
    let mut samples: Vec<i64> = Vec::new();
    let span: i64 = if width <= 1 {
        1
    } else {
        (width - 1) as i64
    };
    let mut i: usize = 0;
    while i < width
        invariant
            i <= width,
            width <= 0x8000_0000,
            span == span_of(width as int),
            1 <= span <= 0x8000_0000,
            samples@.len() == i as int,
            forall|k: int| 0 <= k < i ==> samples@[k] == welch_coeff(width as int, k),
        decreases width - i,
    {
        let d: i64 = 2 * (i as i64) - ((width as i64) - 1);
        proof {
            assert(d * d >= 0 && d * d <= span as int * (span as int)
                && 1 <= span as int * (span as int) <= 0x4000_0000_0000_0000) by (nonlinear_arith)
                requires
                    -(span as int) <= d as int <= span as int,
                    1 <= span as int <= 0x8000_0000,
            ;
        }
        let dd: i64 = d * d;
        let den: i64 = span * span;
        let q: i64 = crate::fixed::mul_div_q(SCALE, dd, den);
        proof {
            assert(0 <= (SCALE as int) * (dd as int)
                && (SCALE as int) * (dd as int) <= (den as int) * (SCALE as int))
                by (nonlinear_arith)
                requires 0 <= dd as int <= den as int, SCALE > 0,
            ;
            lemma_qdiv_between((SCALE as int) * (dd as int), den as int, 0, SCALE as int);
            assert((SCALE as int) * (dd as int) == (SCALE as int) * (d as int) * (d as int))
                by (nonlinear_arith)
                requires dd as int == d as int * d as int,
            ;
        }
        let v: i64 = SCALE - q;
        samples.push(v);
        i = i + 1;
    }
    Window { samples }
}

} // verus!

verus! {

/// The Hann coefficient for a Q16 cosine value `c`:
/// `sin^2 = (1 - cos) / 2`.
pub open spec fn hann_coeff(c: int) -> int {
    qdiv(SCALE - c, 2)
}

/// The Hamming coefficient for a Q16 cosine value `c`:
/// `25/46 - (21/46) * cos`.
pub open spec fn hamming_coeff(c: int) -> int {
    qdiv(25 * SCALE - 21 * c, 46)
}

/// The Blackman coefficient for a Q16 cosine value `c`, with the
/// double-angle cosine derived exactly from `c`:
/// `a0 - a1*cos + a2*cos2`, `cos2 = 2*cos^2 - 1`.
pub open spec fn blackman_coeff(c: int) -> int {
    let c2 = qdiv(2 * c * c, SCALE as int) - SCALE;
    qdiv(7938 * SCALE - 9240 * c + 1430 * c2, 18608)
}

/// Create the Hann window from a Q16 table of `cos(2*pi*i/(N-1))`.
pub fn hann(cos_table: &Vec<i64>) -> (w: Window)
    requires
        forall|i: int| 0 <= i < cos_table@.len() ==> -SCALE <= #[trigger] cos_table@[i] <= SCALE,
    ensures
        w.coeffs().len() == cos_table@.len(),
        forall|i: int|
            0 <= i < cos_table@.len() ==> w.coeffs()[i] == hann_coeff(cos_table@[i] as int),
{
    let mut samples: Vec<i64> = Vec::new();
    let width: usize = cos_table.len();
    let mut i: usize = 0;
    while i < width
        invariant
            i <= width,
            width == cos_table@.len(),
            samples@.len() == i as int,
            forall|k: int|
                0 <= k < cos_table@.len() ==> -SCALE <= #[trigger] cos_table@[k] <= SCALE,
            forall|k: int| 0 <= k < i ==> samples@[k] == hann_coeff(cos_table@[k] as int),
        decreases width - i,
    {
        let v: i64 = crate::fixed::div_q(SCALE - cos_table[i], 2);
        samples.push(v);
        i = i + 1;
    }
    Window { samples }
}

/// Compute a Hamming window from a Q16 table of `cos(2*pi*i/(N-1))`.
pub fn hamming(cos_table: &Vec<i64>) -> (w: Window)
    requires
        forall|i: int| 0 <= i < cos_table@.len() ==> -SCALE <= #[trigger] cos_table@[i] <= SCALE,
    ensures
        w.coeffs().len() == cos_table@.len(),
        forall|i: int|
            0 <= i < cos_table@.len() ==> w.coeffs()[i] == hamming_coeff(cos_table@[i] as int),
{
    let mut samples: Vec<i64> = Vec::new();
    let width: usize = cos_table.len();
    let mut i: usize = 0;
    while i < width
        invariant
            i <= width,
            width == cos_table@.len(),
            samples@.len() == i as int,
            forall|k: int|
                0 <= k < cos_table@.len() ==> -SCALE <= #[trigger] cos_table@[k] <= SCALE,
            forall|k: int| 0 <= k < i ==> samples@[k] == hamming_coeff(cos_table@[k] as int),
        decreases width - i,
    {
        let v: i64 = crate::fixed::div_q(25 * SCALE - 21 * cos_table[i], 46);
        samples.push(v);
        i = i + 1;
    }
    Window { samples }
}

/// Compute a Blackman window from a Q16 table of `cos(2*pi*i/(N-1))`.
pub fn blackman(cos_table: &Vec<i64>) -> (w: Window)
    requires
        forall|i: int| 0 <= i < cos_table@.len() ==> -SCALE <= #[trigger] cos_table@[i] <= SCALE,
    ensures
        w.coeffs().len() == cos_table@.len(),
        forall|i: int|
            0 <= i < cos_table@.len() ==> w.coeffs()[i] == blackman_coeff(cos_table@[i] as int),
{
    let mut samples: Vec<i64> = Vec::new();
    let width: usize = cos_table.len();
    let mut i: usize = 0;
    while i < width
        invariant
            i <= width,
            width == cos_table@.len(),
            samples@.len() == i as int,
            forall|k: int|
                0 <= k < cos_table@.len() ==> -SCALE <= #[trigger] cos_table@[k] <= SCALE,
            forall|k: int| 0 <= k < i ==> samples@[k] == blackman_coeff(cos_table@[k] as int),
        decreases width - i,
    {
        let c: i64 = cos_table[i];
        proof {
            assert(0 <= c * c <= SCALE as int * (SCALE as int)) by (nonlinear_arith)
                requires -SCALE <= c as int <= SCALE,
            ;
            assert(2 * (c as int) * (c as int) == 2 * ((c as int) * (c as int)))
                by (nonlinear_arith);
        }
        let c2: i64 = crate::fixed::div_q(2 * (c * c), SCALE) - SCALE;
        proof {
            lemma_qdiv_magnitude(2 * (c as int) * (c as int), SCALE as int);
        }
        let v: i64 = crate::fixed::div_q(7938 * SCALE - 9240 * c + 1430 * c2, 18608);
        samples.push(v);
        i = i + 1;
    }
    Window { samples }
}

} // verus!
