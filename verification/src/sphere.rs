//! The one primitive: a sphere. Its intersection test solves the quadratic
//! `|O + tD - C|^2 = R^2`; whether the near root lies ahead of the ray is
//! decided exactly on the integer coefficients, so the hit/miss answer
//! carries no rounding at all.

use crate::hit::{Hit, MaterialHit};
use crate::material::Material;
use crate::num::{
    div_i128, isqrt_u128, lemma_isqrt_bracket, lemma_isqrt_ordered, lemma_isqrt_unique,
    lemma_mul_bound, lemma_tdiv_bound, spec_isqrt, tdiv,
};
use crate::ray::{spec_ray, Ray, COORD_LIMIT, DIR_LIMIT};
use crate::vec3::{
    dot_wide, in_range, lemma_dot_range, lemma_dot_range2, lemma_dot_self_nonneg, spec_dot,
    spec_normalised, Vec3, MIN_UNIT_DOT, NORM_LIMIT, UNIT,
};
use crate::WorldVec;
use vstd::arithmetic::div_mod::{lemma_div_is_ordered, lemma_div_is_ordered_by_denominator};
use vstd::prelude::*;

verus! {

/// Largest magnitude of a sphere centre coordinate or radius (400 units).
pub const SPHERE_LIMIT: i64 = 400_000_000;

/// Every coordinate of a reported intersection point fits here.
pub const HIT_POINT_LIMIT: i64 = 20_000_000_000_000;

#[derive(Debug)]
pub struct Sphere {
    origin: WorldVec,
    radius: i64,
    material: Material,
}

/// Ray origin minus sphere centre.
pub open spec fn spec_oc(s: Sphere, r: Ray) -> Vec3<i64> {
    Vec3(
        (r.spec_origin().0 - s.spec_origin().0) as i64,
        (r.spec_origin().1 - s.spec_origin().1) as i64,
        (r.spec_origin().2 - s.spec_origin().2) as i64,
    )
}

/// The quadratic's coefficients: `a = D . D`, `b = 2 (O - C) . D`,
/// `c = (O - C) . (O - C) - R^2`, and the discriminant `b^2 - 4 a c`.
pub open spec fn spec_qa(r: Ray) -> int {
    spec_dot(r.spec_direction(), r.spec_direction())
}

pub open spec fn spec_qb(s: Sphere, r: Ray) -> int {
    2 * spec_dot(spec_oc(s, r), r.spec_direction())
}

pub open spec fn spec_qc(s: Sphere, r: Ray) -> int {
    spec_dot(spec_oc(s, r), spec_oc(s, r)) - s.spec_radius() * s.spec_radius()
}

pub open spec fn spec_disc(s: Sphere, r: Ray) -> int {
    spec_qb(s, r) * spec_qb(s, r) - 4 * spec_qa(r) * spec_qc(s, r)
}

/// The near root `t = (-b - sqrt(disc)) / (2a)` in fixed point.
pub open spec fn spec_hit_t(s: Sphere, r: Ray) -> int {
    tdiv((-spec_qb(s, r) - spec_isqrt(spec_disc(s, r))) * UNIT, 2 * spec_qa(r))
}

/// The intersection point `O + t D`.
pub open spec fn spec_hit_point(s: Sphere, r: Ray) -> Vec3<i64> {
    let t = spec_hit_t(s, r);
    Vec3(
        (r.spec_origin().0 + tdiv(r.spec_direction().0 * t, UNIT as int)) as i64,
        (r.spec_origin().1 + tdiv(r.spec_direction().1 * t, UNIT as int)) as i64,
        (r.spec_origin().2 + tdiv(r.spec_direction().2 * t, UNIT as int)) as i64,
    )
}

/// Intersection point minus centre: the unnormalised outward normal.
pub open spec fn spec_pc(s: Sphere, r: Ray) -> Vec3<i64> {
    let p = spec_hit_point(s, r);
    Vec3(
        (p.0 - s.spec_origin().0) as i64,
        (p.1 - s.spec_origin().1) as i64,
        (p.2 - s.spec_origin().2) as i64,
    )
}

/// The ray hits: the discriminant is nonnegative (a real root exists) and
/// the near real root is not behind the origin, which for `a > 0` is exactly
/// `b <= 0 && c >= 0`. In particular a ray starting strictly inside the
/// sphere (`c < 0`) reports no hit. The degenerate case where rounding lands
/// the intersection point on the centre itself is also discarded, so that
/// the normal is never a zero vector.
pub open spec fn sphere_hits(s: Sphere, r: Ray) -> bool {
    &&& spec_disc(s, r) >= 0
    &&& spec_qb(s, r) <= 0
    &&& spec_qc(s, r) >= 0
    &&& spec_pc(s, r) != (Vec3(0i64, 0i64, 0i64))
}

/// What a successful intersection returns: the sphere's material, and the
/// surface normal anchored at the intersection point.
pub open spec fn spec_sphere_hit_result(s: Sphere, r: Ray) -> MaterialHit {
    MaterialHit {
        material: s.spec_material(),
        intersected_surface_normal: spec_ray(spec_hit_point(s, r), spec_normalised(spec_pc(s, r))),
    }
}

impl Sphere {
    pub closed spec fn spec_origin(self) -> WorldVec {
        self.origin
    }

    pub closed spec fn spec_radius(self) -> int {
        self.radius as int
    }

    pub closed spec fn spec_material(self) -> Material {
        self.material
    }

    /// Geometry stays in the fixed-point range the intersection arithmetic
    /// needs.
    #[verifier::type_invariant]
    pub open spec fn wf(self) -> bool {
        &&& in_range(self.spec_origin(), SPHERE_LIMIT as int)
        &&& 1 <= self.spec_radius() <= SPHERE_LIMIT
    }

    pub fn new(origin: WorldVec, radius: i64, material: Material) -> (s: Sphere)
        requires
            in_range(origin, SPHERE_LIMIT as int),
            1 <= radius <= SPHERE_LIMIT,
        ensures
            s.spec_origin() == origin,
            s.spec_radius() == radius,
            s.spec_material() == material,
    {
        Sphere { origin, radius, material }
    }

    /// The intersection test. `Some` exactly when `sphere_hits` holds, and
    /// the returned normal ray is pinned to the computed intersection point
    /// and unit normal.
    pub fn hit(&self, from: &Ray) -> (r: Option<MaterialHit>)
        requires
            from.traceable(),
        ensures
            r is Some <==> sphere_hits(*self, *from),
            r matches Some(h) ==> h == spec_sphere_hit_result(*self, *from) && in_range(
                h.intersected_surface_normal.spec_origin(),
                HIT_POINT_LIMIT as int,
            ) && in_range(h.intersected_surface_normal.spec_direction(), UNIT as int) && spec_dot(
                h.intersected_surface_normal.spec_direction(),
                h.intersected_surface_normal.spec_direction(),
            ) >= MIN_UNIT_DOT,
    {
        proof {
            use_type_invariant(self);
        }
        let o = *from.get_origin();
        let dir = *from.get_direction();
        let oc = Vec3(o.0 - self.origin.0, o.1 - self.origin.1, o.2 - self.origin.2);
        let a: i128 = dot_wide(dir, dir);
        let half_b: i128 = dot_wide(oc, dir);
        proof {
            lemma_dot_range2(oc, dir, (COORD_LIMIT + SPHERE_LIMIT) as int, DIR_LIMIT as int);
            lemma_dot_range(oc, oc, (COORD_LIMIT + SPHERE_LIMIT) as int);
            lemma_dot_range(dir, dir, DIR_LIMIT as int);
            lemma_mul_bound(self.radius as int, self.radius as int, SPHERE_LIMIT as int, SPHERE_LIMIT as int);
        }
        let b: i128 = 2 * half_b;
        let c: i128 = dot_wide(oc, oc) - (self.radius as i128) * (self.radius as i128);
        proof {
            lemma_mul_bound(b as int, b as int, 250_000_000_000_000_000, 250_000_000_000_000_000);
            lemma_mul_bound(4 * a as int, c as int, 4_000_000_000_000_000, 20_000_000_000_000_000_000);
            assert(4 * a * c == (4 * a) * c) by (nonlinear_arith);
        }
        let disc: i128 = b * b - 4 * a * c;
        if disc >= 0 && b <= 0 && c >= 0 {
            proof {
                lemma_dot_self_nonneg(dir);
                assert(4 * a * c >= 0) by (nonlinear_arith)
                    requires
                        a >= 0,
                        c >= 0,
                ;
                assert((-b as int) * (-b as int) == b as int * b && b as int * b < (-b as int + 1) * (
                -b as int + 1)) by (nonlinear_arith)
                    requires
                        b <= 0,
                ;
                lemma_isqrt_unique((b * b) as int, -b as int);
                lemma_isqrt_ordered(disc as int, (b * b) as int);
                lemma_isqrt_bracket(disc as int);
            }
            let s: i128 = isqrt_u128(disc as u128) as i128;
            let tnum: i128 = -b - s;
            proof {
                lemma_t_bound(tnum as int, a as int);
            }
            let t: i128 = div_i128(tnum * (UNIT as i128), 2 * a);
            proof {
                lemma_point_term(dir.0 as int, t as int);
                lemma_point_term(dir.1 as int, t as int);
                lemma_point_term(dir.2 as int, t as int);
            }
            let px = o.0 + (div_i128((dir.0 as i128) * t, UNIT as i128) as i64);
            let py = o.1 + (div_i128((dir.1 as i128) * t, UNIT as i128) as i64);
            let pz = o.2 + (div_i128((dir.2 as i128) * t, UNIT as i128) as i64);
            let pcx = px - self.origin.0;
            let pcy = py - self.origin.1;
            let pcz = pz - self.origin.2;
            if pcx == 0 && pcy == 0 && pcz == 0 {
                return None;
            }
            let pc = Vec3(pcx, pcy, pcz);
            proof {
                lemma_dot_self_nonneg(pc);
                assert(spec_dot(pc, pc) >= 1) by (nonlinear_arith)
                    requires
                        pc.0 != 0 || pc.1 != 0 || pc.2 != 0,
                        spec_dot(pc, pc) >= 0,
                        spec_dot(pc, pc) == pc.0 * pc.0 + pc.1 * pc.1 + pc.2 * pc.2,
                ;
            }
            let nd = pc.normalised();
            Some(
                MaterialHit {
                    material: self.material,
                    intersected_surface_normal: Ray::new(Vec3(px, py, pz), nd),
                },
            )
        } else {
            None
        }
    }
}

impl Hit for Sphere {
    open spec fn spec_hits(&self, from: Ray) -> bool {
        sphere_hits(*self, from)
    }

    open spec fn spec_hit_result(&self, from: Ray) -> MaterialHit {
        spec_sphere_hit_result(*self, from)
    }

    fn hit(&self, from: &Ray) -> Option<MaterialHit> {
        Sphere::hit(self, from)
    }
}

/// A ray whose origin lies strictly inside the sphere (squared distance
/// from the centre strictly below the squared radius) never reports a hit:
/// the near root is behind the origin, and the far root is discarded by
/// design.
pub proof fn lemma_inside_sphere_misses(s: Sphere, r: Ray)
    requires
        spec_dot(spec_oc(s, r), spec_oc(s, r)) < s.spec_radius() * s.spec_radius(),
    ensures
        !sphere_hits(s, r),
{
    assert(spec_qc(s, r) < 0);
}

/// Bounds for the fixed-point near root.
proof fn lemma_t_bound(tnum: int, a: int)
    requires
        0 <= tnum <= 500_000_000_000_000_000,
        MIN_UNIT_DOT <= a,
    ensures
        0 <= tdiv(tnum * UNIT, 2 * a) <= 1_000_000_000_000,
{
    let n = tnum * UNIT;
    lemma_mul_bound(tnum, UNIT as int, 500_000_000_000_000_000, UNIT as int);
    crate::num::lemma_div_le(n, 2 * a);
    lemma_div_is_ordered(n, 500_000_000_000_000_000_000_000, 2 * a);
    lemma_div_is_ordered_by_denominator(500_000_000_000_000_000_000_000, 500_000_000_000, 2 * a);
    crate::num::lemma_div_scaled(1_000_000_000_000, 1, 500_000_000_000);
    assert(1_000_000_000_000 * 500_000_000_000 == 500_000_000_000_000_000_000_000int)
        by (nonlinear_arith);
}

/// Bounds for one coordinate of `D * t / UNIT`.
proof fn lemma_point_term(diri: int, t: int)
    requires
        -DIR_LIMIT <= diri <= DIR_LIMIT,
        0 <= t <= 1_000_000_000_000,
    ensures
        -(16_000_000_000_000_000_000int) <= diri * t <= 16_000_000_000_000_000_000int,
        -(16_000_000_000_000int) <= tdiv(diri * t, UNIT as int) <= 16_000_000_000_000int,
{
    lemma_mul_bound(diri, t, DIR_LIMIT as int, 1_000_000_000_000);
    lemma_tdiv_bound(diri * t, UNIT as int, 16_000_000_000_000_000_000int);
    assert(DIR_LIMIT as int * 1_000_000_000_000 == 16_000_000_000_000_000_000int)
        by (nonlinear_arith);
    crate::num::lemma_div_scaled(16_000_000_000_000, 1, UNIT as int);
    assert(16_000_000_000_000int * UNIT == 16_000_000_000_000_000_000int) by (nonlinear_arith);
}

} // verus!
