//! The three-component value type, used as vector, point and color.
//!
//! Components are 16.16 fixed-point scalars.  The mathematical model of a
//! vector is a triple of unbounded integers, and every operation's contract
//! states the exact triple it returns via the spec functions below.

use crate::fixed::{
    byte_of, div_fp, dot3_i64, fdiv, fmul, fp_abs, fsqrt, lemma_fdiv_le, lemma_fmul_le,
    lemma_mul_abs, lemma_sqrt_floor, lemma_tdiv_mag, lemma_tdiv_nonneg, lemma_tdiv_scaled_le, mul_fp, sqrt_fp,
    tdiv, SCALE,
};
use vstd::prelude::*;

verus! {

/// Magnitude bound on components accepted by the quadratic-size operations
/// (dot product, cross product, squared length): 2^38 fixed-point units.
pub const COMP_MAX: i64 = 0x4000000000;

/// The mathematical model of a vector: its components as unbounded integers.
pub open spec fn v3(v: Vec3) -> (int, int, int) {
    (v.i as int, v.j as int, v.k as int)
}

/// The vector holding a triple of integers; exact when they fit.
pub open spec fn vec_of3(u: (int, int, int)) -> Vec3 {
    Vec3 { i: u.0 as i64, j: u.1 as i64, k: u.2 as i64 }
}

/// All three components within magnitude `b`.
pub open spec fn bounded3(u: (int, int, int), b: int) -> bool {
    &&& fp_abs(u.0) <= b
    &&& fp_abs(u.1) <= b
    &&& fp_abs(u.2) <= b
}

/// Component-wise sum.
pub open spec fn add3(u: (int, int, int), v: (int, int, int)) -> (int, int, int) {
    (u.0 + v.0, u.1 + v.1, u.2 + v.2)
}

/// Component-wise difference.
pub open spec fn sub3(u: (int, int, int), v: (int, int, int)) -> (int, int, int) {
    (u.0 - v.0, u.1 - v.1, u.2 - v.2)
}

/// Component-wise negation.
pub open spec fn neg3(u: (int, int, int)) -> (int, int, int) {
    (-u.0, -u.1, -u.2)
}

/// Component-wise fixed-point product.
pub open spec fn mul3(u: (int, int, int), v: (int, int, int)) -> (int, int, int) {
    (fmul(u.0, v.0), fmul(u.1, v.1), fmul(u.2, v.2))
}

/// Scaling by a fixed-point scalar.
pub open spec fn smul3(u: (int, int, int), t: int) -> (int, int, int) {
    (fmul(u.0, t), fmul(u.1, t), fmul(u.2, t))
}

/// Division by a fixed-point scalar (nonzero).
pub open spec fn sdiv3(u: (int, int, int), t: int) -> (int, int, int) {
    (fdiv(u.0, t), fdiv(u.1, t), fdiv(u.2, t))
}

/// Fixed-point dot product: the wide sum of products, scaled back once.
pub open spec fn dot3(u: (int, int, int), v: (int, int, int)) -> int {
    tdiv(u.0 * v.0 + u.1 * v.1 + u.2 * v.2, SCALE as int)
}

/// Magnitude bound for a dot product of bounded vectors.
pub proof fn lemma_dot3_le(u: (int, int, int), v: (int, int, int), b: int, c: int)
    requires
        bounded3(u, b),
        bounded3(v, c),
        0 <= b,
        0 <= c,
    ensures
        fp_abs(dot3(u, v)) <= (3 * (b * c)) / (SCALE as int),
{
    lemma_mul_abs(u.0, v.0, b, c);
    lemma_mul_abs(u.1, v.1, b, c);
    lemma_mul_abs(u.2, v.2, b, c);
    lemma_tdiv_scaled_le(u.0 * v.0 + u.1 * v.1 + u.2 * v.2, SCALE as int, 3 * (b * c));
}

/// The dot product of a vector with itself is nonnegative.
pub proof fn lemma_dot3_self_nonneg(u: (int, int, int))
    ensures
        0 <= dot3(u, u),
{
    assert(0 <= u.0 * u.0 && 0 <= u.1 * u.1 && 0 <= u.2 * u.2) by (nonlinear_arith);
    lemma_tdiv_nonneg(u.0 * u.0 + u.1 * u.1 + u.2 * u.2, SCALE as int);
}

/// Fixed-point cross product.
pub open spec fn cross3(u: (int, int, int), v: (int, int, int)) -> (int, int, int) {
    (
        fmul(u.1, v.2) - fmul(u.2, v.1),
        fmul(u.2, v.0) - fmul(u.0, v.2),
        fmul(u.0, v.1) - fmul(u.1, v.0),
    )
}

/// Squared length.
pub open spec fn len_sq3(u: (int, int, int)) -> int {
    dot3(u, u)
}

/// Length: the fixed-point square root of the squared length.
pub open spec fn len3(u: (int, int, int)) -> int {
    fsqrt(len_sq3(u))
}

/// The unit vector: each component divided by the length.
pub open spec fn unit3(u: (int, int, int)) -> (int, int, int) {
    sdiv3(u, len3(u))
}

/// The RGBA bytes of a color: each component clamped and scaled to a byte,
/// alpha fixed at opaque.
pub open spec fn rgba3(u: (int, int, int)) -> Seq<u8> {
    seq![byte_of(u.0), byte_of(u.1), byte_of(u.2), 255u8]
}

/// A three-component fixed-point value: a free vector, a point in space, or
/// an RGB color, depending on the call site.
#[derive(Clone, Copy, Debug, PartialEq, Eq, Structural)]
pub struct Vec3 {
    pub i: i64,
    pub j: i64,
    pub k: i64,
}

impl Vec3 {
    pub fn new(i: i64, j: i64, k: i64) -> (v: Vec3)
        ensures
            v3(v) == (i as int, j as int, k as int),
    {
        Vec3 { i, j, k }
    }

    /// Negation; every component must be negatable.
    pub fn neg(self) -> (r: Vec3)
        requires
            self.i != i64::MIN,
            self.j != i64::MIN,
            self.k != i64::MIN,
        ensures
            v3(r) == neg3(v3(self)),
    {
        Vec3 { i: -self.i, j: -self.j, k: -self.k }
    }

    /// Component-wise sum; the sums must fit.
    pub fn add(self, rhs: Vec3) -> (r: Vec3)
        requires
            i64::MIN <= self.i + rhs.i <= i64::MAX,
            i64::MIN <= self.j + rhs.j <= i64::MAX,
            i64::MIN <= self.k + rhs.k <= i64::MAX,
        ensures
            v3(r) == add3(v3(self), v3(rhs)),
    {
        Vec3 { i: self.i + rhs.i, j: self.j + rhs.j, k: self.k + rhs.k }
    }

    /// In-place sum, the same operation as `add`.
    pub fn add_assign(&mut self, rhs: Vec3)
        requires
            i64::MIN <= old(self).i + rhs.i <= i64::MAX,
            i64::MIN <= old(self).j + rhs.j <= i64::MAX,
            i64::MIN <= old(self).k + rhs.k <= i64::MAX,
        ensures
            v3(*final(self)) == add3(v3(*old(self)), v3(rhs)),
    {
        self.i = self.i + rhs.i;
        self.j = self.j + rhs.j;
        self.k = self.k + rhs.k;
    }

    /// Component-wise difference; the differences must fit.
    pub fn sub(self, rhs: Vec3) -> (r: Vec3)
        requires
            i64::MIN <= self.i - rhs.i <= i64::MAX,
            i64::MIN <= self.j - rhs.j <= i64::MAX,
            i64::MIN <= self.k - rhs.k <= i64::MAX,
        ensures
            v3(r) == sub3(v3(self), v3(rhs)),
    {
        Vec3 { i: self.i - rhs.i, j: self.j - rhs.j, k: self.k - rhs.k }
    }

    /// In-place difference, the same operation as `sub`.
    pub fn sub_assign(&mut self, rhs: Vec3)
        requires
            i64::MIN <= old(self).i - rhs.i <= i64::MAX,
            i64::MIN <= old(self).j - rhs.j <= i64::MAX,
            i64::MIN <= old(self).k - rhs.k <= i64::MAX,
        ensures
            v3(*final(self)) == sub3(v3(*old(self)), v3(rhs)),
    {
        self.i = self.i - rhs.i;
        self.j = self.j - rhs.j;
        self.k = self.k - rhs.k;
    }

    /// Component-wise fixed-point product (color tinting).
    pub fn mul(self, rhs: Vec3) -> (r: Vec3)
        requires
            fp_abs(fmul(self.i as int, rhs.i as int)) <= i64::MAX as int,
            fp_abs(fmul(self.j as int, rhs.j as int)) <= i64::MAX as int,
            fp_abs(fmul(self.k as int, rhs.k as int)) <= i64::MAX as int,
        ensures
            v3(r) == mul3(v3(self), v3(rhs)),
    {
        Vec3 {
            i: mul_fp(self.i, rhs.i),
            j: mul_fp(self.j, rhs.j),
            k: mul_fp(self.k, rhs.k),
        }
    }

    /// Scaling by a fixed-point scalar.
    pub fn scale(self, t: i64) -> (r: Vec3)
        requires
            fp_abs(fmul(self.i as int, t as int)) <= i64::MAX as int,
            fp_abs(fmul(self.j as int, t as int)) <= i64::MAX as int,
            fp_abs(fmul(self.k as int, t as int)) <= i64::MAX as int,
        ensures
            v3(r) == smul3(v3(self), t as int),
    {
        Vec3 { i: mul_fp(self.i, t), j: mul_fp(self.j, t), k: mul_fp(self.k, t) }
    }

    /// In-place scaling, the same operation as `scale`.
    pub fn scale_assign(&mut self, t: i64)
        requires
            fp_abs(fmul(old(self).i as int, t as int)) <= i64::MAX as int,
            fp_abs(fmul(old(self).j as int, t as int)) <= i64::MAX as int,
            fp_abs(fmul(old(self).k as int, t as int)) <= i64::MAX as int,
        ensures
            v3(*final(self)) == smul3(v3(*old(self)), t as int),
    {
        self.i = mul_fp(self.i, t);
        self.j = mul_fp(self.j, t);
        self.k = mul_fp(self.k, t);
    }

    /// Division by a nonzero fixed-point scalar.
    pub fn div(self, t: i64) -> (r: Vec3)
        requires
            t != 0,
            fp_abs(fdiv(self.i as int, t as int)) <= i64::MAX as int,
            fp_abs(fdiv(self.j as int, t as int)) <= i64::MAX as int,
            fp_abs(fdiv(self.k as int, t as int)) <= i64::MAX as int,
        ensures
            v3(r) == sdiv3(v3(self), t as int),
    {
        Vec3 { i: div_fp(self.i, t), j: div_fp(self.j, t), k: div_fp(self.k, t) }
    }

    /// In-place division, the same operation as `div`.
    pub fn div_assign(&mut self, t: i64)
        requires
            t != 0,
            fp_abs(fdiv(old(self).i as int, t as int)) <= i64::MAX as int,
            fp_abs(fdiv(old(self).j as int, t as int)) <= i64::MAX as int,
            fp_abs(fdiv(old(self).k as int, t as int)) <= i64::MAX as int,
        ensures
            v3(*final(self)) == sdiv3(v3(*old(self)), t as int),
    {
        self.i = div_fp(self.i, t);
        self.j = div_fp(self.j, t);
        self.k = div_fp(self.k, t);
    }

    /// Fixed-point dot product.
    pub fn dot(&self, other: &Vec3) -> (r: i64)
        requires
            bounded3(v3(*self), COMP_MAX as int),
            bounded3(v3(*other), COMP_MAX as int),
        ensures
            r == dot3(v3(*self), v3(*other)),
    {
        proof {
            lemma_dot3_le(v3(*self), v3(*other), COMP_MAX as int, COMP_MAX as int);
        }
        dot3_i64(self.i, self.j, self.k, other.i, other.j, other.k)
    }

    /// Fixed-point cross product.
    pub fn cross(&self, other: &Vec3) -> (r: Vec3)
        requires
            bounded3(v3(*self), COMP_MAX as int),
            bounded3(v3(*other), COMP_MAX as int),
        ensures
            v3(r) == cross3(v3(*self), v3(*other)),
    {
        proof {
            lemma_cross_terms_fit(v3(*self), v3(*other));
        }
        Vec3 {
            i: mul_fp(self.j, other.k) - mul_fp(self.k, other.j),
            j: mul_fp(self.k, other.i) - mul_fp(self.i, other.k),
            k: mul_fp(self.i, other.j) - mul_fp(self.j, other.i),
        }
    }

    /// Squared length: the dot product of the vector with itself.
    pub fn length_squared(&self) -> (r: i64)
        requires
            bounded3(v3(*self), COMP_MAX as int),
        ensures
            r == len_sq3(v3(*self)),
            0 <= r,
    {
        proof {
            lemma_dot3_self_nonneg(v3(*self));
        }
        self.dot(self)
    }

    /// Length: the fixed-point square root of the squared length.
    pub fn length(&self) -> (r: i64)
        requires
            bounded3(v3(*self), COMP_MAX as int),
        ensures
            r == len3(v3(*self)),
            0 <= r,
    {
        sqrt_fp(self.length_squared())
    }

    /// The unit vector in the same direction; the vector must have nonzero
    /// squared length.
    pub fn normalized(&self) -> (r: Vec3)
        requires
            bounded3(v3(*self), COMP_MAX as int),
            1 <= len_sq3(v3(*self)),
        ensures
            v3(r) == unit3(v3(*self)),
    {
        let len: i64 = self.length();
        proof {
            let x = len_sq3(v3(*self)) * (SCALE as int);
            lemma_sqrt_floor(x);
            assert(65536 <= x);
            if len == 0 {
                assert(x < 1) by (nonlinear_arith)
                    requires
                        crate::fixed::is_sqrt(x, 0),
                ;
            }
            lemma_fdiv_le(self.i as int, len as int, COMP_MAX as int);
            lemma_fdiv_le(self.j as int, len as int, COMP_MAX as int);
            lemma_fdiv_le(self.k as int, len as int, COMP_MAX as int);
        }
        self.div(len)
    }

    /// The color packed as four bytes, red, green, blue, opaque alpha; each
    /// component is scaled by 255.999 and clamped to a byte.
    pub fn as_rgba(&self) -> (r: [u8; 4])
        ensures
            r@ == rgba3(v3(*self)),
    {
        let bytes: [u8; 4] = [
            crate::fixed::byte_of_fp(self.i),
            crate::fixed::byte_of_fp(self.j),
            crate::fixed::byte_of_fp(self.k),
            255,
        ];
        proof {
            assert(bytes@ =~= rgba3(v3(*self)));
        }
        bytes
    }
}

/// The terms of a cross product of `COMP_MAX`-bounded vectors fit in `i64`.
proof fn lemma_cross_terms_fit(u: (int, int, int), v: (int, int, int))
    requires
        bounded3(u, COMP_MAX as int),
        bounded3(v, COMP_MAX as int),
    ensures
        fp_abs(fmul(u.1, v.2)) <= i64::MAX as int,
        fp_abs(fmul(u.2, v.1)) <= i64::MAX as int,
        fp_abs(fmul(u.2, v.0)) <= i64::MAX as int,
        fp_abs(fmul(u.0, v.2)) <= i64::MAX as int,
        fp_abs(fmul(u.0, v.1)) <= i64::MAX as int,
        fp_abs(fmul(u.1, v.0)) <= i64::MAX as int,
        i64::MIN <= fmul(u.1, v.2) - fmul(u.2, v.1) <= i64::MAX,
        i64::MIN <= fmul(u.2, v.0) - fmul(u.0, v.2) <= i64::MAX,
        i64::MIN <= fmul(u.0, v.1) - fmul(u.1, v.0) <= i64::MAX,
{
    lemma_fmul_le(u.1, v.2, COMP_MAX as int, COMP_MAX as int);
    lemma_fmul_le(u.2, v.1, COMP_MAX as int, COMP_MAX as int);
    lemma_fmul_le(u.2, v.0, COMP_MAX as int, COMP_MAX as int);
    lemma_fmul_le(u.0, v.2, COMP_MAX as int, COMP_MAX as int);
    lemma_fmul_le(u.0, v.1, COMP_MAX as int, COMP_MAX as int);
    lemma_fmul_le(u.1, v.0, COMP_MAX as int, COMP_MAX as int);
}

/// A vector of nonzero squared length has length at least one, and its unit
/// vector's components are bounded by the original bound scaled up.
pub proof fn lemma_unit3_bound(u: (int, int, int), b: int)
    requires
        bounded3(u, b),
        1 <= len_sq3(u),
        0 <= b,
    ensures
        1 <= len3(u),
        bounded3(unit3(u), b * (SCALE as int)),
{
    let x = len_sq3(u) * (SCALE as int);
    lemma_sqrt_floor(x);
    if len3(u) == 0 {
        assert(x < 1) by (nonlinear_arith)
            requires
                crate::fixed::is_sqrt(x, 0),
        ;
    }
    lemma_fdiv_le(u.0, len3(u), b);
    lemma_fdiv_le(u.1, len3(u), b);
    lemma_fdiv_le(u.2, len3(u), b);
}

/// One addend of the dot product of a vector with its unit vector: dividing
/// a component by a positive length keeps its sign, so the product of the
/// two is never negative.
proof fn lemma_unit_term_nonneg(c: int, len: int)
    requires
        0 < len,
    ensures
        0 <= fdiv(c, len) * c,
{
    if c >= 0 {
        lemma_tdiv_nonneg(c * 65536, len);
        assert(0 <= fdiv(c, len) * c) by (nonlinear_arith)
            requires
                0 <= fdiv(c, len),
                0 <= c,
        ;
    } else {
        vstd::arithmetic::div_mod::lemma_div_pos_is_pos(-(c * 65536), len);
        assert(0 <= fdiv(c, len) * c) by (nonlinear_arith)
            requires
                fdiv(c, len) <= 0,
                c <= 0,
        ;
    }
}

/// The addend contributed by a component of largest magnitude `m`, when the
/// length does not exceed `2m`: at least half a unit times `m`.
proof fn lemma_unit_term_big(c: int, len: int)
    requires
        0 < len,
        len <= 2 * fp_abs(c),
        1 <= fp_abs(c),
    ensures
        32768 * fp_abs(c) <= fdiv(c, len) * c,
{
    let m = fp_abs(c);
    lemma_tdiv_mag(c * 65536, len);
    assert(fp_abs(c * 65536) == m * 65536);
    vstd::arithmetic::div_mod::lemma_div_is_ordered_by_denominator(m * 65536, len, 2 * m);
    assert(m * 65536 == (2 * m) * 32768) by (nonlinear_arith);
    vstd::arithmetic::div_mod::lemma_div_multiples_vanish(32768, 2 * m);
    if c >= 0 {
        lemma_tdiv_nonneg(c * 65536, len);
    } else {
        vstd::arithmetic::div_mod::lemma_div_pos_is_pos(-(c * 65536), len);
    }
    assert(32768 * m <= fdiv(c, len) * c) by (nonlinear_arith)
        requires
            32768 <= fp_abs(fdiv(c, len)),
            0 <= c ==> 0 <= fdiv(c, len),
            c < 0 ==> fdiv(c, len) <= 0,
            fp_abs(c) == m,
            1 <= m,
    ;
}

/// A vector's unit vector points the same way as the vector: their dot
/// product is positive, for every vector of nonzero squared length that
/// normalization accepts.
pub proof fn lemma_normalized_same_direction(u: (int, int, int))
    requires
        bounded3(u, COMP_MAX as int),
        1 <= len_sq3(u),
    ensures
        0 < dot3(unit3(u), u),
{
    let s = u.0 * u.0 + u.1 * u.1 + u.2 * u.2;
    let x = len_sq3(u) * 65536;
    lemma_sqrt_floor(x);
    let len = len3(u);
    if len == 0 {
        assert(x < 1) by (nonlinear_arith)
            requires
                crate::fixed::is_sqrt(x, 0),
        ;
    }
    let m = if fp_abs(u.0) >= fp_abs(u.1) && fp_abs(u.0) >= fp_abs(u.2) {
        fp_abs(u.0)
    } else if fp_abs(u.1) >= fp_abs(u.2) {
        fp_abs(u.1)
    } else {
        fp_abs(u.2)
    };
    assert(0 <= s && s <= 3 * (m * m)) by (nonlinear_arith)
        requires
            s == u.0 * u.0 + u.1 * u.1 + u.2 * u.2,
            -m <= u.0 <= m,
            -m <= u.1 <= m,
            -m <= u.2 <= m,
    ;
    lemma_tdiv_nonneg(s, 65536);
    vstd::arithmetic::div_mod::lemma_fundamental_div_mod(s, 65536);
    assert(x <= s);
    assert(148 <= m) by (nonlinear_arith)
        requires
            65536 <= x,
            x <= 3 * (m * m),
            0 <= m,
    ;
    assert(len < 2 * m) by (nonlinear_arith)
        requires
            1 <= m,
            0 <= len,
            len * len <= x,
            x <= 3 * (m * m),
            0 <= m,
    ;
    lemma_unit_term_nonneg(u.0, len);
    lemma_unit_term_nonneg(u.1, len);
    lemma_unit_term_nonneg(u.2, len);
    if fp_abs(u.0) == m {
        lemma_unit_term_big(u.0, len);
    } else if fp_abs(u.1) == m {
        lemma_unit_term_big(u.1, len);
    } else {
        lemma_unit_term_big(u.2, len);
    }
    let sum = fdiv(u.0, len) * u.0 + fdiv(u.1, len) * u.1 + fdiv(u.2, len) * u.2;
    assert(65536 <= sum) by (nonlinear_arith)
        requires
            148 <= m,
            32768 * m <= sum,
    ;
    crate::fixed::lemma_tdiv_monotone(65536int, sum, 65536);
    lemma_tdiv_nonneg(65536int, 65536);
}

/// The squared length is the dot product of a vector with itself.
pub proof fn lemma_length_squared_is_dot(v: Vec3)
    ensures
        len_sq3(v3(v)) == dot3(v3(v), v3(v)),
{
}

/// The length is the fixed-point square root of the squared length.
pub proof fn lemma_length_is_sqrt_of_length_squared(v: Vec3)
    ensures
        len3(v3(v)) == fsqrt(len_sq3(v3(v))),
{
}

} // verus!
