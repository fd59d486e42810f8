//! The fixed-point scalar substrate: every numeric value in this crate is an
//! `i64` holding `SCALE` units per real unit. Products are rescaled with
//! truncation toward zero, which `fp_mul_spec` states exactly.

use vstd::arithmetic::div_mod::{lemma_div_is_ordered, lemma_div_multiples_vanish,
    lemma_div_pos_is_pos};
use vstd::arithmetic::mul::lemma_mul_inequality;
use vstd::prelude::*;

verus! {

/// Fixed-point units per real unit.
pub const SCALE: i64 = 1_000_000;

/// Fixed-point representation of one half.
pub const HALF_SCALE: i64 = 500_000;

/// Largest magnitude any stored scalar (weight, bias, input, hidden value)
/// may carry; keeps every product inside the 64-bit range.
pub const VAL_LIMIT: i64 = 1_000_000_000;

/// Largest mutation rate the mutation operator accepts (one hundred, in
/// fixed-point units).
pub const RATE_LIMIT: i64 = 100_000_000;

/// Largest batch or feature dimension a layer may carry.
pub const MAX_DIM: usize = 10_000;

/// Integer division rounding toward zero (the rounding the executable
/// rescaling performs), as opposed to the Euclidean `/` of spec arithmetic.
pub open spec fn tdiv(a: int, b: int) -> int {
    if a >= 0 {
        a / b
    } else {
        -((-a) / b)
    }
}

/// The fixed-point product: the wide product rescaled by `SCALE`,
/// rounded toward zero.
pub open spec fn fp_mul_spec(a: int, b: int) -> int {
    tdiv(a * b, SCALE as int)
}

/// Division toward zero keeps order when the numerator grows.
pub proof fn lemma_tdiv_mono(x: int, y: int, d: int)
    requires
        x <= y,
        0 < d,
    ensures
        tdiv(x, d) <= tdiv(y, d),
{
    if x >= 0 {
        lemma_div_is_ordered(x, y, d);
    } else if y >= 0 {
        lemma_div_pos_is_pos(-x, d);
        lemma_div_pos_is_pos(y, d);
    } else {
        lemma_div_is_ordered(-y, -x, d);
    }
}

/// The magnitude of a truncated quotient is the quotient of the magnitude.
pub proof fn lemma_tdiv_mag(x: int, m: int, d: int)
    requires
        -m <= x <= m,
        0 <= m,
        0 < d,
    ensures
        -(m / d) <= tdiv(x, d) <= m / d,
{
    if x >= 0 {
        lemma_div_pos_is_pos(x, d);
        lemma_div_is_ordered(x, m, d);
    } else {
        lemma_div_pos_is_pos(-x, d);
        lemma_div_is_ordered(-x, m, d);
    }
}

/// Bounds on the factors bound the fixed-point product.
pub proof fn lemma_fp_mul_bound(a: int, b: int, aa: int, bb: int)
    requires
        -aa <= a <= aa,
        -bb <= b <= bb,
        0 <= aa,
        0 <= bb,
    ensures
        -((aa * bb) / (SCALE as int)) <= fp_mul_spec(a, b) <= (aa * bb) / (SCALE as int),
{
    assert(-(aa * bb) <= a * b <= aa * bb) by (nonlinear_arith)
        requires
            -aa <= a <= aa,
            -bb <= b <= bb,
            0 <= aa,
            0 <= bb,
    ;
    lemma_tdiv_mag(a * b, aa * bb, SCALE as int);
}

/// Multiplying by a factor of at most one (in fixed point) cannot grow a
/// nonnegative left operand.
pub proof fn lemma_fp_mul_contract(a: int, b: int)
    requires
        0 <= a,
        -SCALE <= b <= SCALE,
    ensures
        -a <= fp_mul_spec(a, b) <= a,
{
    lemma_fp_mul_bound(a, b, a, SCALE as int);
    lemma_div_multiples_vanish(a, SCALE as int);
    assert(a * (SCALE as int) == (SCALE as int) * a) by (nonlinear_arith);
}

/// Multiplying by `SCALE` (the fixed-point one) is the identity.
pub proof fn lemma_fp_mul_one(a: int)
    ensures
        fp_mul_spec(a, SCALE as int) == a,
{
    if a >= 0 {
        lemma_div_multiples_vanish(a, SCALE as int);
        assert(a * (SCALE as int) == (SCALE as int) * a) by (nonlinear_arith);
    } else {
        lemma_div_multiples_vanish(-a, SCALE as int);
        assert(-(a * (SCALE as int)) == (SCALE as int) * (-a)) by (nonlinear_arith);
    }
}

/// The fixed-point product is monotone in its right factor when the left
/// factor is nonnegative.
pub proof fn lemma_fp_mul_mono_right(a: int, b1: int, b2: int)
    requires
        0 <= a,
        b1 <= b2,
    ensures
        fp_mul_spec(a, b1) <= fp_mul_spec(a, b2),
{
    assert(a * b1 <= a * b2) by {
        lemma_mul_inequality(b1, b2, a);
        assert(b1 * a == a * b1) by (nonlinear_arith);
        assert(b2 * a == a * b2) by (nonlinear_arith);
    };
    lemma_tdiv_mono(a * b1, a * b2, SCALE as int);
}

/// The fixed-point product is monotone in its left factor when the right
/// factor is nonnegative.
pub proof fn lemma_fp_mul_mono_left(a1: int, a2: int, b: int)
    requires
        a1 <= a2,
        0 <= b,
    ensures
        fp_mul_spec(a1, b) <= fp_mul_spec(a2, b),
{
    lemma_mul_inequality(a1, a2, b);
    lemma_tdiv_mono(a1 * b, a2 * b, SCALE as int);
}

/// The fixed-point product of nonnegative factors is nonnegative.
pub proof fn lemma_fp_mul_nonneg(a: int, b: int)
    requires
        0 <= a,
        0 <= b,
    ensures
        0 <= fp_mul_spec(a, b),
{
    assert(0 <= a * b) by (nonlinear_arith)
        requires
            0 <= a,
            0 <= b,
    ;
    lemma_div_pos_is_pos(a * b, SCALE as int);
}

/// The exact fixed-point product of two scalars.
pub fn fp_mul(a: i64, b: i64) -> (r: i64)
    requires
        -2_000_000_000 <= a <= 2_000_000_000,
        -2_000_000_000 <= b <= 2_000_000_000,
    ensures
        r == fp_mul_spec(a as int, b as int),
{
    let neg: bool = (a < 0) != (b < 0);
    let ma: u64 = if a >= 0 {
        a as u64
    } else {
        (-a) as u64
    };
    let mb: u64 = if b >= 0 {
        b as u64
    } else {
        (-b) as u64
    };
    assert(ma * mb <= 4_000_000_000_000_000_000) by (nonlinear_arith)
        requires
            ma <= 2_000_000_000,
            mb <= 2_000_000_000,
    ;
    let p: u64 = ma * mb;
    let q: u64 = p / 1_000_000u64;
    proof {
        let ab = (a as int) * (b as int);
        if a >= 0 && b >= 0 {
            assert(p == ab && ab >= 0) by (nonlinear_arith)
                requires
                    ma == a as int,
                    mb == b as int,
                    p == ma * mb,
                    ab == (a as int) * (b as int),
            ;
        } else if a < 0 && b < 0 {
            assert(p == ab && ab >= 0) by (nonlinear_arith)
                requires
                    ma == -(a as int),
                    mb == -(b as int),
                    p == ma * mb,
                    ab == (a as int) * (b as int),
            ;
        } else {
            assert(p == -ab && ab <= 0) by (nonlinear_arith)
                requires
                    (ma == a as int && mb == -(b as int)) || (ma == -(a as int) && mb == b
                        as int),
                    p == ma * mb,
                    ab == (a as int) * (b as int),
            ;
        }
        lemma_div_pos_is_pos(p as int, SCALE as int);
        lemma_div_is_ordered(p as int, 4_000_000_000_000_000_000, SCALE as int);
    }
    if neg {
        -(q as i64)
    } else {
        q as i64
    }
}

/// The integer square root of a nonnegative integer: the largest integer
/// whose square does not exceed it.
pub open spec fn isqrt_spec(n: int) -> int {
    choose|r: int| 0 <= r && #[trigger] (r * r) <= n && n < (r + 1) * (r + 1)
}

/// Any witness to the square-root bracket is the integer square root.
pub proof fn lemma_isqrt_is(n: int, r: int)
    requires
        0 <= r,
        r * r <= n,
        n < (r + 1) * (r + 1),
    ensures
        isqrt_spec(n) == r,
{
    assert(exists|q: int| 0 <= q && #[trigger] (q * q) <= n && n < (q + 1) * (q + 1));
    let q = isqrt_spec(n);
    if q != r {
        assert(false) by (nonlinear_arith)
            requires
                0 <= r,
                r * r <= n,
                n < (r + 1) * (r + 1),
                0 <= q,
                q * q <= n,
                n < (q + 1) * (q + 1),
                q != r,
        ;
    }
}

/// The integer square root: the largest integer whose square does not
/// exceed the argument.
pub fn isqrt(n: u64) -> (r: u64)
    ensures
        r * r <= n,
        n < (r + 1) * (r + 1),
        r == isqrt_spec(n as int),
{
    if n == 0 {
        proof {
            lemma_isqrt_is(0, 0);
        }
        return 0;
    }
    let mut lo: u64 = 0;
    let mut hi: u64 = 4_294_967_296;
    proof {
        assert((4_294_967_296int) * (4_294_967_296int) > u64::MAX) by (nonlinear_arith);
    }
    while lo + 1 < hi
        invariant
            lo < hi <= 4_294_967_296,
            lo * lo <= n,
            n < hi * hi,
        decreases hi - lo,
    {
        let mid: u64 = lo + (hi - lo) / 2;
        assert(lo < mid < hi);
        assert(mid * mid <= u64::MAX) by (nonlinear_arith)
            requires
                mid <= 4_294_967_295,
        ;
        if mid * mid <= n {
            lo = mid;
        } else {
            hi = mid;
        }
    }
    proof {
        lemma_isqrt_is(n as int, lo as int);
    }
    lo
}

/// Clamps a scalar into a closed interval.
pub fn clamp(x: i64, lo: i64, hi: i64) -> (r: i64)
    requires
        lo <= hi,
    ensures
        r == clamp_spec(x as int, lo as int, hi as int),
{
    if x < lo {
        lo
    } else if x > hi {
        hi
    } else {
        x
    }
}

/// The value of `clamp`.
pub open spec fn clamp_spec(x: int, lo: int, hi: int) -> int {
    if x < lo {
        lo
    } else if x > hi {
        hi
    } else {
        x
    }
}

} // verus!
