//! A three-component vector. The geometry of the tracer uses `Vec3<i64>`
//! (see `crate::WorldVec`) with fixed-point scalars in millionths; images use
//! `Vec3<u8>` for RGB triples.

use crate::num::{
    div_i128, isqrt_u128, lemma_div_scaled, lemma_isqrt_bracket, lemma_isqrt_ordered,
    lemma_isqrt_unique, lemma_mul_bound, lemma_tdiv_bound, spec_isqrt, tdiv,
};
use vstd::arithmetic::div_mod::lemma_div_is_ordered;
use vstd::prelude::*;

verus! {

/// One: the fixed-point scale of all world scalars.
pub const UNIT: i64 = 1_000_000;

/// Largest magnitude a coordinate may have for the 128-bit intermediates of
/// `length` and `normalised` to stay in range.
pub const NORM_LIMIT: i64 = 4_000_000_000_000_000_000;

/// Largest magnitude a coordinate may have for `dot` and `cross` to fit the
/// 64-bit result.
pub const DOT_LIMIT: i64 = 1_500_000_000;

/// Largest magnitude a coordinate may have in `add`, `sub` and `neg`.
pub const ADD_LIMIT: i64 = 4_000_000_000_000_000_000;

/// Every normalised vector has a squared length of at least this
/// (`(UNIT / 2)^2`): truncation can shrink it, but not below half a unit.
pub const MIN_UNIT_DOT: i64 = 250_000_000_000;

#[derive(Debug, Clone, Copy, PartialEq, Eq, Structural)]
pub struct Vec3<T>(pub T, pub T, pub T);

/// All three components have magnitude at most `b`.
pub open spec fn in_range(v: Vec3<i64>, b: int) -> bool {
    &&& -b <= v.0 <= b
    &&& -b <= v.1 <= b
    &&& -b <= v.2 <= b
}

pub open spec fn spec_dot(a: Vec3<i64>, b: Vec3<i64>) -> int {
    a.0 * b.0 + a.1 * b.1 + a.2 * b.2
}

pub open spec fn spec_cross(a: Vec3<i64>, b: Vec3<i64>) -> Vec3<i64> {
    Vec3(
        (a.1 * b.2 - a.2 * b.1) as i64,
        (a.2 * b.0 - a.0 * b.2) as i64,
        (a.0 * b.1 - a.1 * b.0) as i64,
    )
}

/// The length of `v`: the floor square root of `v . v`.
pub open spec fn spec_length(v: Vec3<i64>) -> int {
    spec_isqrt(spec_dot(v, v))
}

/// `v` scaled to (fixed-point) unit length: each component becomes
/// `c * UNIT / |v|`, truncating toward zero.
pub open spec fn spec_normalised(v: Vec3<i64>) -> Vec3<i64> {
    Vec3(
        tdiv(v.0 * UNIT, spec_length(v)) as i64,
        tdiv(v.1 * UNIT, spec_length(v)) as i64,
        tdiv(v.2 * UNIT, spec_length(v)) as i64,
    )
}

/// The dot product of vectors with coordinates bounded by `b` is bounded by
/// `3 * b * b`.
pub proof fn lemma_dot_range(a: Vec3<i64>, b: Vec3<i64>, bound: int)
    by (nonlinear_arith)
    requires
        0 <= bound,
        in_range(a, bound),
        in_range(b, bound),
    ensures
        -(3 * bound * bound) <= spec_dot(a, b) <= 3 * bound * bound,
{
}

/// As `lemma_dot_range`, with separate bounds for the two vectors.
pub proof fn lemma_dot_range2(a: Vec3<i64>, b: Vec3<i64>, ba: int, bb: int)
    by (nonlinear_arith)
    requires
        0 <= ba,
        0 <= bb,
        in_range(a, ba),
        in_range(b, bb),
    ensures
        -(3 * ba * bb) <= spec_dot(a, b) <= 3 * ba * bb,
{
}

pub proof fn lemma_dot_self_nonneg(v: Vec3<i64>)
    by (nonlinear_arith)
    ensures
        spec_dot(v, v) >= 0,
        v.0 * v.0 <= spec_dot(v, v),
        v.1 * v.1 <= spec_dot(v, v),
        v.2 * v.2 <= spec_dot(v, v),
{
}

/// One component of a normalised vector has magnitude at most `UNIT`.
proof fn lemma_norm_component(x: int, d: int)
    requires
        1 <= d,
        x * x <= d,
    ensures
        -(UNIT as int) <= tdiv(x * UNIT, spec_isqrt(d)) <= UNIT as int,
        spec_isqrt(d) >= 1,
{
    let len = spec_isqrt(d);
    lemma_isqrt_bracket(d);
    let ax = if x >= 0 { x } else { -x };
    assert(ax * ax == x * x && ax * ax < (ax + 1) * (ax + 1)) by (nonlinear_arith)
        requires
            ax == if x >= 0 { x } else { -x },
            0 <= ax,
    ;
    lemma_isqrt_unique(ax * ax, ax);
    lemma_isqrt_ordered(ax * ax, d);
    assert(len >= 1) by {
        if len == 0 {
            assert(d < (0 + 1) * (0 + 1));
        }
    }
    // `ax <= len`, hence `|x * UNIT| <= len * UNIT`.
    assert(-(len * UNIT) <= x * UNIT <= len * UNIT) by (nonlinear_arith)
        requires
            -len <= x <= len,
            0 <= len,
            UNIT == 1_000_000,
    ;
    lemma_tdiv_bound(x * UNIT, len, len * UNIT);
    lemma_div_scaled(UNIT as int, 1, len);
    assert(UNIT as int * len == len * UNIT) by (nonlinear_arith);
    assert((len * UNIT) / len == UNIT as int);
}

/// The components of a cross product are bounded by twice the product of
/// the factors' bounds.
pub proof fn lemma_cross_range(a: Vec3<i64>, b: Vec3<i64>, ba: int, bb: int)
    requires
        0 <= ba,
        0 <= bb,
        in_range(a, ba),
        in_range(b, bb),
        2 * ba * bb <= i64::MAX,
    ensures
        in_range(spec_cross(a, b), 2 * ba * bb),
{
    lemma_mul_bound(a.1 as int, b.2 as int, ba, bb);
    lemma_mul_bound(a.2 as int, b.1 as int, ba, bb);
    lemma_mul_bound(a.2 as int, b.0 as int, ba, bb);
    lemma_mul_bound(a.0 as int, b.2 as int, ba, bb);
    lemma_mul_bound(a.0 as int, b.1 as int, ba, bb);
    lemma_mul_bound(a.1 as int, b.0 as int, ba, bb);
    assert(2 * ba * bb == 2 * (ba * bb)) by (nonlinear_arith);
}

/// A normalised vector's components stay within `UNIT`, as a fact about the
/// spec value.
pub proof fn lemma_normalised_in_range(v: Vec3<i64>)
    requires
        in_range(v, NORM_LIMIT as int),
        spec_dot(v, v) >= 1,
    ensures
        in_range(spec_normalised(v), UNIT as int),
        spec_dot(spec_normalised(v), spec_normalised(v)) >= MIN_UNIT_DOT,
{
    lemma_dot_self_nonneg(v);
    lemma_norm_component(v.0 as int, spec_dot(v, v));
    lemma_norm_component(v.1 as int, spec_dot(v, v));
    lemma_norm_component(v.2 as int, spec_dot(v, v));
    lemma_normalised_min(v);
}

/// The cross product is exactly orthogonal to both of its factors: the
/// camera's orthonormal basis rests on this, and it holds with no rounding
/// because the cross product itself involves no division.
pub proof fn lemma_cross_orthogonal(a: Vec3<i64>, b: Vec3<i64>)
    requires
        in_range(a, DOT_LIMIT as int),
        in_range(b, DOT_LIMIT as int),
    ensures
        spec_dot(spec_cross(a, b), a) == 0,
        spec_dot(spec_cross(a, b), b) == 0,
{
    lemma_mul_bound(a.1 as int, b.2 as int, DOT_LIMIT as int, DOT_LIMIT as int);
    lemma_mul_bound(a.2 as int, b.1 as int, DOT_LIMIT as int, DOT_LIMIT as int);
    lemma_mul_bound(a.2 as int, b.0 as int, DOT_LIMIT as int, DOT_LIMIT as int);
    lemma_mul_bound(a.0 as int, b.2 as int, DOT_LIMIT as int, DOT_LIMIT as int);
    lemma_mul_bound(a.0 as int, b.1 as int, DOT_LIMIT as int, DOT_LIMIT as int);
    lemma_mul_bound(a.1 as int, b.0 as int, DOT_LIMIT as int, DOT_LIMIT as int);
    let c = spec_cross(a, b);
    assert(c.0 == a.1 * b.2 - a.2 * b.1 && c.1 == a.2 * b.0 - a.0 * b.2 && c.2 == a.0 * b.1 - a.1
        * b.0);
    assert((a.1 * b.2 - a.2 * b.1) * a.0 + (a.2 * b.0 - a.0 * b.2) * a.1 + (a.0 * b.1 - a.1 * b.0)
        * a.2 == 0) by (nonlinear_arith);
    assert((a.1 * b.2 - a.2 * b.1) * b.0 + (a.2 * b.0 - a.0 * b.2) * b.1 + (a.0 * b.1 - a.1 * b.0)
        * b.2 == 0) by (nonlinear_arith);
}

/// The component of largest magnitude keeps at least half a unit of length
/// under normalisation.
proof fn lemma_big_component(x: int, len: int, m: int)
    requires
        x == m || x == -m,
        1 <= m,
        1 <= len <= 2 * m,
    ensures
        tdiv(x * UNIT, len) * tdiv(x * UNIT, len) >= MIN_UNIT_DOT,
{
    let q = (m * UNIT) / len;
    assert(0 <= m * UNIT) by (nonlinear_arith)
        requires
            1 <= m,
    ;
    vstd::arithmetic::div_mod::lemma_div_is_ordered_by_denominator(m * UNIT, len, 2 * m);
    lemma_div_scaled(UNIT as int, 2, m);
    assert((m * UNIT) / (2 * m) == 500_000) by {
        assert(UNIT as int * m == m * UNIT) by (nonlinear_arith);
        assert((UNIT as int * m) / (2 * m) == UNIT as int / 2);
    }
    assert(q >= 500_000);
    if x == m {
        assert(tdiv(x * UNIT, len) == q);
    } else {
        assert(x * UNIT == -(m * UNIT)) by (nonlinear_arith)
            requires
                x == -m,
        ;
        assert(tdiv(x * UNIT, len) == -q);
    }
    assert(q * q >= 500_000 * 500_000 && (-q) * (-q) == q * q) by (nonlinear_arith)
        requires
            q >= 500_000,
    ;
}

/// A normalised vector keeps a squared length of at least `MIN_UNIT_DOT`.
proof fn lemma_normalised_min(v: Vec3<i64>)
    requires
        in_range(v, NORM_LIMIT as int),
        spec_dot(v, v) >= 1,
    ensures
        spec_dot(spec_normalised(v), spec_normalised(v)) >= MIN_UNIT_DOT,
{
    let d = spec_dot(v, v);
    let len = spec_isqrt(d);
    lemma_isqrt_bracket(d);
    lemma_dot_self_nonneg(v);
    lemma_norm_component(v.0 as int, d);
    lemma_norm_component(v.1 as int, d);
    lemma_norm_component(v.2 as int, d);
    let a0 = if v.0 >= 0 { v.0 as int } else { -(v.0 as int) };
    let a1 = if v.1 >= 0 { v.1 as int } else { -(v.1 as int) };
    let a2 = if v.2 >= 0 { v.2 as int } else { -(v.2 as int) };
    let m = if a0 >= a1 && a0 >= a2 { a0 } else if a1 >= a2 { a1 } else { a2 };
    assert(1 <= m && d <= 3 * m * m) by (nonlinear_arith)
        requires
            m == (if a0 >= a1 && a0 >= a2 { a0 } else if a1 >= a2 { a1 } else { a2 }),
            a0 == (if v.0 >= 0 { v.0 as int } else { -(v.0 as int) }),
            a1 == (if v.1 >= 0 { v.1 as int } else { -(v.1 as int) }),
            a2 == (if v.2 >= 0 { v.2 as int } else { -(v.2 as int) }),
            d == spec_dot(v, v),
            d >= 1,
    ;
    assert(len <= 2 * m) by {
        if len > 2 * m {
            assert(false) by (nonlinear_arith)
                requires
                    len > 2 * m,
                    len * len <= d,
                    d <= 3 * m * m,
                    m >= 1,
            ;
        }
    }
    let r = spec_normalised(v);
    lemma_dot_self_nonneg(r);
    if a0 >= a1 && a0 >= a2 {
        lemma_big_component(v.0 as int, len, m);
        assert(r.0 * r.0 <= spec_dot(r, r));
    } else if a1 >= a2 {
        lemma_big_component(v.1 as int, len, m);
        assert(r.1 * r.1 <= spec_dot(r, r));
    } else {
        lemma_big_component(v.2 as int, len, m);
        assert(r.2 * r.2 <= spec_dot(r, r));
    }
}

impl<T> Vec3<T> {
    pub fn new(x: T, y: T, z: T) -> (r: Self)
        ensures
            r == (Vec3(x, y, z)),
    {
        Vec3(x, y, z)
    }
}

impl Vec3<i64> {
    /// Componentwise sum.
    pub fn add(self, rhs: Self) -> (r: Self)
        requires
            in_range(self, ADD_LIMIT as int),
            in_range(rhs, ADD_LIMIT as int),
        ensures
            r.0 == self.0 + rhs.0,
            r.1 == self.1 + rhs.1,
            r.2 == self.2 + rhs.2,
    {
        Vec3(self.0 + rhs.0, self.1 + rhs.1, self.2 + rhs.2)
    }

    /// Componentwise difference.
    pub fn sub(self, rhs: Self) -> (r: Self)
        requires
            in_range(self, ADD_LIMIT as int),
            in_range(rhs, ADD_LIMIT as int),
        ensures
            r.0 == self.0 - rhs.0,
            r.1 == self.1 - rhs.1,
            r.2 == self.2 - rhs.2,
    {
        Vec3(self.0 - rhs.0, self.1 - rhs.1, self.2 - rhs.2)
    }

    /// Componentwise negation.
    pub fn neg(self) -> (r: Self)
        requires
            in_range(self, ADD_LIMIT as int),
        ensures
            r.0 == -self.0,
            r.1 == -self.1,
            r.2 == -self.2,
    {
        Vec3(-self.0, -self.1, -self.2)
    }

    /// Scale by a raw scalar (not fixed-point: `v.scale(2)` doubles `v`).
    pub fn scale(self, s: i64) -> (r: Self)
        requires
            in_range(self, DOT_LIMIT as int),
            -(DOT_LIMIT as int) <= s <= DOT_LIMIT as int,
        ensures
            r.0 == self.0 * s,
            r.1 == self.1 * s,
            r.2 == self.2 * s,
    {
        proof {
            lemma_mul_bound(self.0 as int, s as int, DOT_LIMIT as int, DOT_LIMIT as int);
            lemma_mul_bound(self.1 as int, s as int, DOT_LIMIT as int, DOT_LIMIT as int);
            lemma_mul_bound(self.2 as int, s as int, DOT_LIMIT as int, DOT_LIMIT as int);
        }
        Vec3(self.0 * s, self.1 * s, self.2 * s)
    }

    /// Dot product.
    pub fn dot(self, rhs: Self) -> (r: i64)
        requires
            in_range(self, DOT_LIMIT as int),
            in_range(rhs, DOT_LIMIT as int),
        ensures
            r == spec_dot(self, rhs),
    {
        proof {
            lemma_dot_range(self, rhs, DOT_LIMIT as int);
            lemma_mul_bound(self.0 as int, rhs.0 as int, DOT_LIMIT as int, DOT_LIMIT as int);
            lemma_mul_bound(self.1 as int, rhs.1 as int, DOT_LIMIT as int, DOT_LIMIT as int);
            lemma_mul_bound(self.2 as int, rhs.2 as int, DOT_LIMIT as int, DOT_LIMIT as int);
        }
        let r: i128 = (self.0 as i128) * (rhs.0 as i128) + (self.1 as i128) * (rhs.1 as i128)
            + (self.2 as i128) * (rhs.2 as i128);
        r as i64
    }

    /// Cross product, right-handed: `cross(a, b) == neg(cross(b, a))`.
    pub fn cross(self, rhs: Self) -> (r: Self)
        requires
            in_range(self, DOT_LIMIT as int),
            in_range(rhs, DOT_LIMIT as int),
        ensures
            r == spec_cross(self, rhs),
            r.0 == self.1 * rhs.2 - self.2 * rhs.1,
            r.1 == self.2 * rhs.0 - self.0 * rhs.2,
            r.2 == self.0 * rhs.1 - self.1 * rhs.0,
    {
        proof {
            lemma_mul_bound(self.1 as int, rhs.2 as int, DOT_LIMIT as int, DOT_LIMIT as int);
            lemma_mul_bound(self.2 as int, rhs.1 as int, DOT_LIMIT as int, DOT_LIMIT as int);
            lemma_mul_bound(self.2 as int, rhs.0 as int, DOT_LIMIT as int, DOT_LIMIT as int);
            lemma_mul_bound(self.0 as int, rhs.2 as int, DOT_LIMIT as int, DOT_LIMIT as int);
            lemma_mul_bound(self.0 as int, rhs.1 as int, DOT_LIMIT as int, DOT_LIMIT as int);
            lemma_mul_bound(self.1 as int, rhs.0 as int, DOT_LIMIT as int, DOT_LIMIT as int);
        }
        let x: i128 = (self.1 as i128) * (rhs.2 as i128) - (self.2 as i128) * (rhs.1 as i128);
        let y: i128 = (self.2 as i128) * (rhs.0 as i128) - (self.0 as i128) * (rhs.2 as i128);
        let z: i128 = (self.0 as i128) * (rhs.1 as i128) - (self.1 as i128) * (rhs.0 as i128);
        Vec3(x as i64, y as i64, z as i64)
    }

    /// The length of the vector, `isqrt(v . v)`.
    pub fn length(self) -> (r: i64)
        requires
            in_range(self, NORM_LIMIT as int),
        ensures
            r == spec_length(self),
            0 <= r <= 2 * NORM_LIMIT,
    {
        let d = dot_wide(self, self);
        proof {
            lemma_dot_self_nonneg(self);
            lemma_dot_range(self, self, NORM_LIMIT as int);
            lemma_isqrt_bracket(d as int);
            let r = spec_isqrt(d as int);
            assert(r <= 2 * NORM_LIMIT as int) by {
                if r > 2 * NORM_LIMIT as int {
                    assert((2 * NORM_LIMIT as int) * (2 * NORM_LIMIT as int) < r * r
                        && 3 * (NORM_LIMIT as int) * (NORM_LIMIT as int) < (2 * NORM_LIMIT as int)
                        * (2 * NORM_LIMIT as int)) by (nonlinear_arith)
                        requires
                            r > 2 * NORM_LIMIT as int,
                            NORM_LIMIT == 4_000_000_000_000_000_000i64,
                    ;
                }
            }
        }
        isqrt_u128(d as u128) as i64
    }

    /// The vector scaled to unit length (`UNIT` in fixed point), truncating
    /// toward zero. The zero vector must never be normalised.
    pub fn normalised(self) -> (r: Self)
        requires
            in_range(self, NORM_LIMIT as int),
            spec_dot(self, self) > 0,
        ensures
            r == spec_normalised(self),
            in_range(r, UNIT as int),
            spec_dot(r, r) >= MIN_UNIT_DOT,
    {
        let d = dot_wide(self, self);
        let len: i64 = self.length();
        proof {
            lemma_dot_self_nonneg(self);
            lemma_normalised_min(self);
            lemma_norm_component(self.0 as int, d as int);
            lemma_norm_component(self.1 as int, d as int);
            lemma_norm_component(self.2 as int, d as int);
            lemma_isqrt_bracket(d as int);
            assert(len >= 1) by {
                if spec_isqrt(d as int) == 0 {
                    assert(d < 1);
                }
            }
            lemma_mul_bound(self.0 as int, UNIT as int, NORM_LIMIT as int, UNIT as int);
            lemma_mul_bound(self.1 as int, UNIT as int, NORM_LIMIT as int, UNIT as int);
            lemma_mul_bound(self.2 as int, UNIT as int, NORM_LIMIT as int, UNIT as int);
        }
        let x = div_i128((self.0 as i128) * (UNIT as i128), len as i128);
        let y = div_i128((self.1 as i128) * (UNIT as i128), len as i128);
        let z = div_i128((self.2 as i128) * (UNIT as i128), len as i128);
        Vec3(x as i64, y as i64, z as i64)
    }
}

/// Dot product with a 128-bit result, for the wide ranges `length` and
/// `normalised` accept.
pub(crate) fn dot_wide(a: Vec3<i64>, b: Vec3<i64>) -> (r: i128)
    requires
        in_range(a, NORM_LIMIT as int),
        in_range(b, NORM_LIMIT as int),
    ensures
        r == spec_dot(a, b),
{
    proof {
        lemma_mul_bound(a.0 as int, b.0 as int, NORM_LIMIT as int, NORM_LIMIT as int);
        lemma_mul_bound(a.1 as int, b.1 as int, NORM_LIMIT as int, NORM_LIMIT as int);
        lemma_mul_bound(a.2 as int, b.2 as int, NORM_LIMIT as int, NORM_LIMIT as int);
    }
    (a.0 as i128) * (b.0 as i128) + (a.1 as i128) * (b.1 as i128) + (a.2 as i128) * (b.2 as i128)
}

} // verus!
