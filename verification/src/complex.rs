//! Complex samples: an ordered pair of fixed-point real components.

use vstd::prelude::*;
use crate::SAMPLE_LIMIT;

verus! {

/// A complex sample; `re` and `im` are plain fixed-point samples.
#[derive(Clone, Copy, Debug, PartialEq, Eq, Structural)]
pub struct Complex {
    pub re: i64,
    pub im: i64,
}

impl Complex {
    /// Squared magnitude, as a mathematical integer.
    pub open spec fn norm_sqr_spec(self) -> int {
        self.re * self.re + self.im * self.im
    }

    /// Both components lie within `limit` in magnitude.
    pub open spec fn bounded(self, limit: int) -> bool {
        -limit <= self.re <= limit && -limit <= self.im <= limit
    }

    pub fn new(re: i64, im: i64) -> (c: Complex)
        ensures
            c.re == re,
            c.im == im,
    {
        Complex { re, im }
    }

    /// Squared magnitude; never overflows because the two squares of
    /// `i64` values always fit together in a `u128`.
    pub fn norm_sqr(&self) -> (r: u128)
        ensures
            r as int == self.norm_sqr_spec(),
    {
        let ar: u128 = if self.re >= 0 {
            self.re as u128
        } else {
            (-(self.re + 1)) as u128 + 1
        };
        let ai: u128 = if self.im >= 0 {
            self.im as u128
        } else {
            (-(self.im + 1)) as u128 + 1
        };
        proof {
            assert(ar * ar == self.re * self.re && ai * ai == self.im * self.im
                && ar * ar + ai * ai < 0x1_0000_0000_0000_0000_0000_0000_0000_0000)
                by (nonlinear_arith)
                requires
                    ar == if self.re >= 0 { self.re as int } else { -(self.re as int) },
                    ai == if self.im >= 0 { self.im as int } else { -(self.im as int) },
                    -0x8000_0000_0000_0000 <= self.re as int <= 0x7fff_ffff_ffff_ffff,
                    -0x8000_0000_0000_0000 <= self.im as int <= 0x7fff_ffff_ffff_ffff,
            ;
        }
        ar * ar + ai * ai
    }

    /// Component-wise sum.
    pub fn add(&self, other: &Complex) -> (c: Complex)
        requires
            i64::MIN <= self.re + other.re <= i64::MAX,
            i64::MIN <= self.im + other.im <= i64::MAX,
        ensures
            c.re == self.re + other.re,
            c.im == self.im + other.im,
    {
        Complex { re: self.re + other.re, im: self.im + other.im }
    }

    /// Component-wise difference.
    pub fn sub(&self, other: &Complex) -> (c: Complex)
        requires
            i64::MIN <= self.re - other.re <= i64::MAX,
            i64::MIN <= self.im - other.im <= i64::MAX,
        ensures
            c.re == self.re - other.re,
            c.im == self.im - other.im,
    {
        Complex { re: self.re - other.re, im: self.im - other.im }
    }

    /// Exact complex product; the component bound keeps every product
    /// and sum inside `i64`.
    pub fn mul(&self, other: &Complex) -> (c: Complex)
        requires
            self.bounded(SAMPLE_LIMIT as int),
            other.bounded(SAMPLE_LIMIT as int),
        ensures
            c.re == self.re * other.re - self.im * other.im,
            c.im == self.re * other.im + self.im * other.re,
    {
        proof {
            lemma_product_bound(self.re as int, other.re as int, SAMPLE_LIMIT as int);
            lemma_product_bound(self.im as int, other.im as int, SAMPLE_LIMIT as int);
            lemma_product_bound(self.re as int, other.im as int, SAMPLE_LIMIT as int);
            lemma_product_bound(self.im as int, other.re as int, SAMPLE_LIMIT as int);
        }
        Complex {
            re: self.re * other.re - self.im * other.im,
            im: self.re * other.im + self.im * other.re,
        }
    }

    /// Complex conjugate.
    pub fn conj(&self) -> (c: Complex)
        requires
            self.im > i64::MIN,
        ensures
            c.re == self.re,
            c.im == -self.im,
    {
        Complex { re: self.re, im: -self.im }
    }
}

/// A product of two values with separate bounds is bounded by the
/// product of the bounds.
pub proof fn lemma_product_bound_asym(a: int, b: int, la: int, lb: int)
    requires
        0 <= la,
        0 <= lb,
        -la <= a <= la,
        -lb <= b <= lb,
    ensures
        -(la * lb) <= a * b <= la * lb,
{
    assert(-(la * lb) <= a * b <= la * lb) by (nonlinear_arith)
        requires
            0 <= la,
            0 <= lb,
            -la <= a <= la,
            -lb <= b <= lb,
    ;
}

/// A product of two values bounded by `limit` is bounded by `limit`
/// squared.
pub proof fn lemma_product_bound(a: int, b: int, limit: int)
    requires
        0 <= limit,
        -limit <= a <= limit,
        -limit <= b <= limit,
    ensures
        -limit * limit <= a * b <= limit * limit,
{
    assert(-limit * limit <= a * b <= limit * limit) by (nonlinear_arith)
        requires
            0 <= limit,
            -limit <= a <= limit,
            -limit <= b <= limit,
    ;
}

} // verus!
