//! Scalar 16.16 fixed-point arithmetic.
//!
//! A fixed-point number is an `i64` holding the real value times [`SCALE`].
//! The spec functions [`tdiv`], [`fmul`], [`fdiv`] and [`fsqrt`] give the
//! exact mathematical meaning of every executable operation; all rounding is
//! truncation toward zero, as the executable helpers implement it.

use vstd::arithmetic::div_mod::{
    lemma_div_is_ordered, lemma_div_is_ordered_by_denominator, lemma_div_multiples_vanish,
    lemma_div_nonincreasing, lemma_div_of0, lemma_div_pos_is_pos,
};
use vstd::prelude::*;

verus! {

/// One unit: the fixed-point representation of the real number 1.0.
pub const SCALE: i64 = 65536;

/// Magnitude of an integer.
pub open spec fn fp_abs(x: int) -> int {
    if x < 0 {
        -x
    } else {
        x
    }
}

/// Division rounding toward zero (the rounding of the executable helpers),
/// defined for `b != 0`.
pub open spec fn tdiv(a: int, b: int) -> int {
    if a >= 0 {
        if b >= 0 {
            a / b
        } else {
            -(a / -b)
        }
    } else {
        if b >= 0 {
            -(-a / b)
        } else {
            -a / -b
        }
    }
}

/// Fixed-point product: the wide product scaled back down, truncated.
pub open spec fn fmul(a: int, b: int) -> int {
    tdiv(a * b, SCALE as int)
}

/// Fixed-point quotient: the dividend scaled up, truncated, for `b != 0`.
pub open spec fn fdiv(a: int, b: int) -> int {
    tdiv(a * (SCALE as int), b)
}

/// `r` is the floor of the real square root of `x`.
pub open spec fn is_sqrt(x: int, r: int) -> bool {
    &&& 0 <= r
    &&& r * r <= x
    &&& x < (r + 1) * (r + 1)
}

/// The floor square root of a nonnegative integer.
pub open spec fn sqrt_floor(x: int) -> int {
    choose|r: int| #[trigger] is_sqrt(x, r)
}

/// Fixed-point square root of a nonnegative fixed-point number.
pub open spec fn fsqrt(x: int) -> int {
    sqrt_floor(x * (SCALE as int))
}

/// A floor square root exists for every nonnegative integer.
pub proof fn lemma_sqrt_exists(x: int)
    requires
        0 <= x,
    ensures
        exists|r: int| #[trigger] is_sqrt(x, r),
    decreases x,
{
    if x == 0 {
        assert(is_sqrt(0, 0));
    } else {
        lemma_sqrt_exists(x - 1);
        let r = choose|r: int| #[trigger] is_sqrt(x - 1, r);
        if (r + 1) * (r + 1) <= x {
            assert(is_sqrt(x, r + 1)) by (nonlinear_arith)
                requires
                    is_sqrt(x - 1, r),
                    (r + 1) * (r + 1) <= x,
            ;
        } else {
            assert(is_sqrt(x, r));
        }
    }
}

/// The floor square root is unique.
pub proof fn lemma_sqrt_unique(x: int, a: int, b: int)
    by (nonlinear_arith)
    requires
        is_sqrt(x, a),
        is_sqrt(x, b),
    ensures
        a == b,
{
}

/// `sqrt_floor` meets its defining property on nonnegative input.
pub proof fn lemma_sqrt_floor(x: int)
    requires
        0 <= x,
    ensures
        is_sqrt(x, sqrt_floor(x)),
{
    lemma_sqrt_exists(x);
}

/// A square upper bound on the argument bounds the floor square root.
pub proof fn lemma_sqrt_bound(x: int, b: int)
    requires
        0 <= x,
        0 <= b,
        x < b * b,
    ensures
        0 <= sqrt_floor(x) < b,
{
    lemma_sqrt_floor(x);
    assert(sqrt_floor(x) < b) by (nonlinear_arith)
        requires
            is_sqrt(x, sqrt_floor(x)),
            0 <= b,
            x < b * b,
    ;
}

/// Magnitude of a product is bounded by the product of the bounds.
pub proof fn lemma_mul_abs(a: int, b: int, aa: int, bb: int)
    by (nonlinear_arith)
    requires
        fp_abs(a) <= aa,
        fp_abs(b) <= bb,
    ensures
        fp_abs(a * b) <= aa * bb,
{
}

/// Truncating division divides the magnitudes.
pub proof fn lemma_tdiv_mag(a: int, b: int)
    requires
        b != 0,
    ensures
        fp_abs(tdiv(a, b)) == fp_abs(a) / fp_abs(b),
{
    lemma_div_pos_is_pos(fp_abs(a), fp_abs(b));
}

/// Truncating division never grows the magnitude.
pub proof fn lemma_tdiv_le(a: int, b: int, aa: int)
    requires
        b != 0,
        fp_abs(a) <= aa,
    ensures
        fp_abs(tdiv(a, b)) <= aa,
{
    lemma_tdiv_mag(a, b);
    lemma_div_nonincreasing(fp_abs(a), fp_abs(b));
    lemma_div_is_ordered(fp_abs(a), aa, fp_abs(b));
    lemma_div_nonincreasing(aa, fp_abs(b));
}

/// Dividing by a positive constant divides the magnitude bound.
pub proof fn lemma_tdiv_scaled_le(a: int, d: int, aa: int)
    requires
        0 < d,
        fp_abs(a) <= aa,
    ensures
        fp_abs(tdiv(a, d)) <= aa / d,
{
    lemma_tdiv_mag(a, d);
    lemma_div_is_ordered(fp_abs(a), aa, d);
}

/// Magnitude bound for a fixed-point product.
pub proof fn lemma_fmul_le(a: int, b: int, aa: int, bb: int)
    requires
        fp_abs(a) <= aa,
        fp_abs(b) <= bb,
    ensures
        fp_abs(fmul(a, b)) <= (aa * bb) / (SCALE as int),
{
    lemma_mul_abs(a, b, aa, bb);
    lemma_tdiv_scaled_le(a * b, SCALE as int, aa * bb);
}

/// Magnitude bound for a fixed-point quotient with divisor at least one.
pub proof fn lemma_fdiv_le(a: int, b: int, aa: int)
    requires
        b != 0,
        fp_abs(a) <= aa,
    ensures
        fp_abs(fdiv(a, b)) <= aa * (SCALE as int),
{
    lemma_mul_abs(a, SCALE as int, aa, SCALE as int);
    lemma_tdiv_le(a * (SCALE as int), b, aa * (SCALE as int));
}

/// Truncating division of a nonnegative number by a positive one agrees with
/// the Euclidean division of the specification language.
pub proof fn lemma_tdiv_nonneg(a: int, b: int)
    requires
        0 <= a,
        0 < b,
    ensures
        tdiv(a, b) == a / b,
        0 <= tdiv(a, b),
{
    lemma_div_pos_is_pos(a, b);
}

/// Truncating division with both magnitudes in `i128` range and a nonzero
/// divisor, computed through unsigned division.
pub fn tdiv_i128(a: i128, b: i128) -> (r: i128)
    requires
        b != 0,
        a != i128::MIN,
        b != i128::MIN,
    ensures
        r == tdiv(a as int, b as int),
{
    let neg: bool = (a < 0) != (b < 0);
    let ma: u128 = if a < 0 {
        (-a) as u128
    } else {
        a as u128
    };
    let mb: u128 = if b < 0 {
        (-b) as u128
    } else {
        b as u128
    };
    let q: u128 = ma / mb;
    proof {
        lemma_div_nonincreasing(ma as int, mb as int);
        lemma_div_pos_is_pos(ma as int, mb as int);
    }
    if neg {
        -(q as i128)
    } else {
        q as i128
    }
}

/// Fixed-point product of two scalars; the result must fit.
pub fn mul_fp(a: i64, b: i64) -> (r: i64)
    requires
        fp_abs(fmul(a as int, b as int)) <= i64::MAX as int,
    ensures
        r == fmul(a as int, b as int),
{
    let p: i128 = (a as i128) * (b as i128);
    proof {
        lemma_mul_abs(a as int, b as int, i64::MAX as int + 1, i64::MAX as int + 1);
    }
    let q: i128 = tdiv_i128(p, SCALE as i128);
    q as i64
}

/// Fixed-point quotient of two scalars; the divisor must be nonzero and the
/// result must fit.
pub fn div_fp(a: i64, b: i64) -> (r: i64)
    requires
        b != 0,
        fp_abs(fdiv(a as int, b as int)) <= i64::MAX as int,
    ensures
        r == fdiv(a as int, b as int),
{
    let p: i128 = (a as i128) * (SCALE as i128);
    let q: i128 = tdiv_i128(p, b as i128);
    q as i64
}

/// Floor square root of an unsigned integer below 2^124, by binary search.
pub fn isqrt_u128(x: u128) -> (r: u128)
    requires
        x < 0x10000000000000000000000000000000,
    ensures
        is_sqrt(x as int, r as int),
{
    let mut lo: u128 = 0;
    let mut hi: u128 = 0x4000000000000000;
    proof {
        assert((hi as int) * (hi as int) == 0x10000000000000000000000000000000int);
    }
    while lo + 1 < hi
        invariant
            lo < hi,
            hi <= 0x4000000000000000,
            (lo as int) * (lo as int) <= x as int,
            (x as int) < (hi as int) * (hi as int),
        decreases hi - lo,
    {
        let mid: u128 = lo + (hi - lo) / 2;
        proof {
            assert((mid as int) * (mid as int) <= 0x10000000000000000000000000000000int)
                by (nonlinear_arith)
                requires
                    mid <= 0x4000000000000000u128,
            ;
        }
        if mid * mid <= x {
            lo = mid;
        } else {
            hi = mid;
        }
    }
    lo
}

/// Fixed-point square root of a nonnegative fixed-point scalar.
pub fn sqrt_fp(x: i64) -> (r: i64)
    requires
        0 <= x,
    ensures
        r == fsqrt(x as int),
        0 <= r,
        is_sqrt(x * (SCALE as int), r as int),
{
    let y: u128 = (x as u128) * 65536;
    let s: u128 = isqrt_u128(y);
    proof {
        lemma_sqrt_floor(y as int);
        lemma_sqrt_unique(y as int, s as int, sqrt_floor(y as int));
        assert(s < 0x10000000000u128) by (nonlinear_arith)
            requires
                is_sqrt(y as int, s as int),
                y < 0x100000000000000000000u128,
        ;
    }
    s as i64
}

/// Zero divided by anything nonzero is zero.
pub proof fn lemma_tdiv_zero(b: int)
    requires
        b != 0,
    ensures
        tdiv(0, b) == 0,
{
    lemma_div_of0(fp_abs(b));
}

/// Dividing by a fixed-point scalar of magnitude at least one unit never
/// grows the magnitude.
pub proof fn lemma_fdiv_by_ge_scale(a: int, b: int)
    requires
        SCALE as int <= fp_abs(b),
    ensures
        fp_abs(fdiv(a, b)) <= fp_abs(a),
{
    lemma_mul_abs(a, SCALE as int, fp_abs(a), SCALE as int);
    lemma_tdiv_mag(a * (SCALE as int), b);
    lemma_div_is_ordered_by_denominator(fp_abs(a * (SCALE as int)), SCALE as int, fp_abs(b));
    lemma_div_is_ordered(fp_abs(a * (SCALE as int)), fp_abs(a) * (SCALE as int), SCALE as int);
    lemma_div_multiples_vanish(fp_abs(a), SCALE as int);
    assert(fp_abs(a) * (SCALE as int) == (SCALE as int) * fp_abs(a)) by (nonlinear_arith);
}

/// Scaling by a fixed-point factor between zero and one never grows the
/// magnitude.
pub proof fn lemma_fmul_unit_le(a: int, t: int)
    requires
        0 <= t <= SCALE as int,
    ensures
        fp_abs(fmul(a, t)) <= fp_abs(a),
{
    lemma_mul_abs(a, t, fp_abs(a), SCALE as int);
    lemma_tdiv_scaled_le(a * t, SCALE as int, fp_abs(a) * (SCALE as int));
    lemma_div_multiples_vanish(fp_abs(a), SCALE as int);
    assert(fp_abs(a) * (SCALE as int) == (SCALE as int) * fp_abs(a)) by (nonlinear_arith);
}

/// Truncating division by a positive divisor is monotone in the dividend.
pub proof fn lemma_tdiv_monotone(a: int, b: int, d: int)
    requires
        a <= b,
        0 < d,
    ensures
        tdiv(a, d) <= tdiv(b, d),
{
    if 0 <= a {
        lemma_div_is_ordered(a, b, d);
    } else if b < 0 {
        lemma_div_is_ordered(-b, -a, d);
    } else {
        lemma_div_pos_is_pos(-a, d);
        lemma_div_pos_is_pos(b, d);
    }
}

/// A dividend below a multiple of the divisor bounds the quotient.
pub proof fn lemma_div_bound(x: int, d: int, b: int)
    requires
        0 <= x,
        0 < d,
        x <= b * d,
    ensures
        x / d <= b,
{
    lemma_div_is_ordered(x, b * d, d);
    lemma_div_multiples_vanish(b, d);
    assert(b * d == d * b) by (nonlinear_arith);
}

/// The byte value of a fixed-point color component: the component scaled by
/// 255.999 (the bias that keeps a full 1.0 component below 256), truncated,
/// then clamped to the byte range.
pub open spec fn byte_of(c: int) -> u8 {
    let s = tdiv(c * 255999, 65536000);
    if s < 0 {
        0u8
    } else if s > 255 {
        255u8
    } else {
        s as u8
    }
}

/// Executable form of [`byte_of`]; total over all fixed-point scalars.
pub fn byte_of_fp(c: i64) -> (r: u8)
    ensures
        r == byte_of(c as int),
{
    proof {
        lemma_mul_abs(c as int, 255999, i64::MAX as int + 1, 255999);
    }
    let p: i128 = (c as i128) * 255999;
    let s: i128 = tdiv_i128(p, 65536000);
    if s < 0 {
        0
    } else if s > 255 {
        255
    } else {
        s as u8
    }
}

/// Fixed-point dot product over raw scalars: the wide sum of the three
/// products, scaled back down once.
pub fn dot3_i64(ai: i64, aj: i64, ak: i64, bi: i64, bj: i64, bk: i64) -> (r: i64)
    requires
        fp_abs(ai as int) <= 0x80000000000000,
        fp_abs(aj as int) <= 0x80000000000000,
        fp_abs(ak as int) <= 0x80000000000000,
        fp_abs(bi as int) <= 0x80000000000000,
        fp_abs(bj as int) <= 0x80000000000000,
        fp_abs(bk as int) <= 0x80000000000000,
        fp_abs(tdiv(ai * bi + aj * bj + ak * bk, SCALE as int)) <= i64::MAX as int,
    ensures
        r == tdiv(ai * bi + aj * bj + ak * bk, SCALE as int),
{
    proof {
        lemma_mul_abs(ai as int, bi as int, 0x80000000000000, 0x80000000000000);
        lemma_mul_abs(aj as int, bj as int, 0x80000000000000, 0x80000000000000);
        lemma_mul_abs(ak as int, bk as int, 0x80000000000000, 0x80000000000000);
    }
    let p: i128 = (ai as i128) * (bi as i128) + (aj as i128) * (bj as i128) + (ak as i128) * (
    bk as i128);
    let q: i128 = tdiv_i128(p, SCALE as i128);
    q as i64
}

} // verus!
