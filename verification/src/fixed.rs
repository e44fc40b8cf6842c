//! Quantized arithmetic shared by every stage.
//!
//! All fractional results in this library are quantized by truncating
//! division (rounding toward zero), exactly as the hardware `/` operator
//! behaves; [`qdiv`] is the specification-level definition of that rule,
//! and every contract that mentions a division goes through it.

use vstd::prelude::*;

verus! {

/// Truncating (round-toward-zero) division, the quantization rule of the
/// whole library.  Matches what the executable `/` computes on signed
/// operands.  Unspecified for `b == 0`.
pub open spec fn qdiv(a: int, b: int) -> int {
    if a >= 0 {
        a / b
    } else {
        -((-a) / b)
    }
}

/// `v` clamped into the closed interval `[lo, hi]`.
pub open spec fn clamped(v: int, lo: int, hi: int) -> int {
    if v < lo {
        lo
    } else if v > hi {
        hi
    } else {
        v
    }
}

/// For a positive divisor, the truncated quotient times the divisor lands
/// within one divisor of the dividend, on the zero side of it.
pub proof fn lemma_qdiv_bounds(a: int, b: int)
    requires
        b > 0,
    ensures
        a >= 0 ==> 0 <= qdiv(a, b) && a - b < b * qdiv(a, b) <= a,
        a <= 0 ==> qdiv(a, b) <= 0 && a <= b * qdiv(a, b) < a + b,
{
    if a >= 0 {
        vstd::arithmetic::div_mod::lemma_fundamental_div_mod(a, b);
        vstd::arithmetic::div_mod::lemma_mod_bound(a, b);
        vstd::arithmetic::div_mod::lemma_div_is_ordered(0, a, b);
    } else {
        vstd::arithmetic::div_mod::lemma_fundamental_div_mod(-a, b);
        vstd::arithmetic::div_mod::lemma_mod_bound(-a, b);
        vstd::arithmetic::div_mod::lemma_div_is_ordered(0, -a, b);
        assert(b * qdiv(a, b) == -(b * ((-a) / b))) by (nonlinear_arith)
            requires qdiv(a, b) == -((-a) / b),
        ;
    }
}

/// The truncated quotient never exceeds the dividend in magnitude.
pub proof fn lemma_qdiv_magnitude(a: int, b: int)
    requires
        b >= 1,
    ensures
        a >= 0 ==> 0 <= qdiv(a, b) <= a,
        a <= 0 ==> a <= qdiv(a, b) <= 0,
{
    if a >= 0 {
        vstd::arithmetic::div_mod::lemma_div_is_ordered(0, a, b);
        vstd::arithmetic::div_mod::lemma_div_nonincreasing(a, b);
    } else {
        vstd::arithmetic::div_mod::lemma_div_is_ordered(0, -a, b);
        vstd::arithmetic::div_mod::lemma_div_nonincreasing(-a, b);
    }
}

/// Quantized division of two samples by a positive divisor.
pub fn div_q(a: i64, b: i64) -> (r: i64)
    requires
        b > 0,
    ensures
        r as int == qdiv(a as int, b as int),
{
    proof {
        lemma_qdiv_magnitude(a as int, b as int);
    }
    a / b
}

/// Quantized scaling: `a * m / d`, with the product widened to `i128`
/// and the quotient clamped into the `i64` range.
pub fn mul_div_q(a: i64, m: i64, d: i64) -> (r: i64)
    requires
        d > 0,
    ensures
        r as int == clamped(
            qdiv(a as int * m as int, d as int),
            i64::MIN as int,
            i64::MAX as int,
        ),
{
    proof {
        assert(-0x4000_0000_0000_0000_0000_0000_0000_0000
            <= a as int * m as int
            <= 0x4000_0000_0000_0000_0000_0000_0000_0000) by (nonlinear_arith)
            requires
                -0x8000_0000_0000_0000 <= a as int <= 0x7fff_ffff_ffff_ffff,
                -0x8000_0000_0000_0000 <= m as int <= 0x7fff_ffff_ffff_ffff,
        ;
    }
    let p: i128 = (a as i128) * (m as i128);
    let q: i128 = p / (d as i128);
    proof {
        lemma_qdiv_magnitude(p as int, d as int);
        assert(q as int == qdiv(p as int, d as int));
    }
    if q > (i64::MAX as i128) {
        i64::MAX
    } else if q < (i64::MIN as i128) {
        i64::MIN
    } else {
        q as i64
    }
}

} // verus!

verus! {

/// `r` is the integer square root (floor) of `n`.
pub open spec fn is_isqrt(r: int, n: int) -> bool {
    0 <= r && r * r <= n && n < (r + 1) * (r + 1)
}

/// Floor of the square root, by bisection.
pub fn isqrt(n: u64) -> (r: u64)
    ensures
        is_isqrt(r as int, n as int),
{
    let mut lo: u64 = 0;
    let mut hi: u64 = 0x1_0000_0000;
    proof {
        assert((0x1_0000_0000 as int) * (0x1_0000_0000 as int) > n as int);
    }
    while lo + 1 < hi
        invariant
            lo < hi <= 0x1_0000_0000,
            lo * lo <= n,
            (hi as int) * (hi as int) > n as int,
        decreases hi - lo,
    {
        let mid: u64 = lo + (hi - lo) / 2;
        proof {
            assert(mid <= 0xffff_ffff ==> mid * mid <= 0xffff_fffe_0000_0001)
                by (nonlinear_arith);
        }
        if mid <= 0xffff_ffff && mid * mid <= n {
            lo = mid;
        } else {
            proof {
                if mid > 0xffff_ffff {
                    assert((mid as int) * (mid as int) > n as int) by (nonlinear_arith)
                        requires mid as int >= 0x1_0000_0000, (n as int) < 0x1_0000_0000_0000_0000,
                    ;
                }
            }
            hi = mid;
        }
    }
    lo
}

} // verus!

verus! {

/// Quantized division keeps a quotient between any integer bounds that
/// bracket the exact quotient.
pub proof fn lemma_qdiv_between(s: int, den: int, m: int, mm: int)
    requires
        den >= 1,
        m <= mm,
        den * m <= s,
        s <= den * mm,
    ensures
        m <= qdiv(s, den) <= mm,
{
    lemma_qdiv_bounds(s, den);
    if s >= 0 {
        assert(den * m <= den * qdiv(s, den) + den - 1 && den * qdiv(s, den) <= den * mm)
            by (nonlinear_arith)
            requires
                den >= 1,
                den * m <= s,
                s <= den * mm,
                s - den < den * qdiv(s, den) <= s,
        ;
        assert(m <= qdiv(s, den) <= mm) by (nonlinear_arith)
            requires
                den >= 1,
                den * m <= den * qdiv(s, den) + den - 1,
                den * qdiv(s, den) <= den * mm,
        ;
    } else {
        assert(den * m <= den * qdiv(s, den) && den * qdiv(s, den) <= den * mm + den - 1)
            by (nonlinear_arith)
            requires
                den >= 1,
                den * m <= s,
                s <= den * mm,
                s <= den * qdiv(s, den) < s + den,
        ;
        assert(m <= qdiv(s, den) <= mm) by (nonlinear_arith)
            requires
                den >= 1,
                den * m <= den * qdiv(s, den),
                den * qdiv(s, den) <= den * mm + den - 1,
        ;
    }
}

} // verus!

verus! {

/// Negating both operands leaves a truncated quotient unchanged, so a
/// difference equation divided by a negated denominator computes the
/// same samples once its numerator coefficients are negated too.
pub proof fn lemma_qdiv_negated(a: int, b: int)
    requires
        b != 0,
    ensures
        qdiv(-a, -b) == qdiv(a, b),
{
    if a == 0 {
        vstd::arithmetic::div_mod::lemma_div_of0(b);
        vstd::arithmetic::div_mod::lemma_div_of0(-b);
    } else if a > 0 {
        lemma_div_negated_denominator(a, b);
    } else {
        lemma_div_negated_denominator(-a, b);
    }
}

/// For a positive dividend, flipping the divisor's sign flips the
/// Euclidean quotient's sign.
proof fn lemma_div_negated_denominator(s: int, d: int)
    requires
        s > 0,
        d != 0,
    ensures
        s / (-d) == -(s / d),
{
    let pos = if d > 0 { d } else { -d };
    let q = s / pos;
    let r = s % pos;
    vstd::arithmetic::div_mod::lemma_fundamental_div_mod(s, pos);
    vstd::arithmetic::div_mod::lemma_mod_bound(s, pos);
    let neg = -pos;
    let q2 = s / neg;
    let r2 = s % neg;
    vstd::arithmetic::div_mod::lemma_fundamental_div_mod(s, neg);
    assert(0 <= r2 < pos);
    assert(q2 == -q) by (nonlinear_arith)
        requires
            pos * q + r == s,
            neg * q2 + r2 == s,
            neg == -pos,
            0 <= r < pos,
            0 <= r2 < pos,
    ;
}

} // verus!

verus! {

/// Truncating division is odd in its dividend: negating the dividend
/// negates the quotient.
pub proof fn lemma_qdiv_odd(a: int, b: int)
    requires
        b != 0,
    ensures
        qdiv(-a, b) == -qdiv(a, b),
{
    if a == 0 {
        vstd::arithmetic::div_mod::lemma_div_of0(b);
    }
}

} // verus!
