//! A refractive material (glass): Snell's law in vector form, with total
//! internal reflection falling back to the unchanged incoming ray. Glass
//! does not tint, so its colour function is the identity.

use crate::colour::Colour;
use crate::material::scatter_inputs_ok;
use crate::num::{
    div_i128, isqrt_u128, lemma_isqrt_bracket, lemma_isqrt_ordered, lemma_isqrt_unique,
    lemma_mul_bound, lemma_tdiv_bound, spec_isqrt, tdiv,
};
use crate::ray::Ray;
use crate::vec3::{in_range, spec_dot, spec_normalised, Vec3, UNIT};
use vstd::prelude::*;

verus! {

/// Largest admissible refractive index (1000.0 in fixed point).
pub const RI_LIMIT: i64 = 1_000_000_000;

#[derive(Debug, Clone, Copy)]
pub struct Dialectic {
    refractive_index: i64,
}

/// `uv . n` for the normalised incoming direction and normal; fixed-point
/// scale `UNIT * UNIT`.
pub open spec fn spec_dialectic_dt(incoming: Ray, surface_normal: Ray) -> int {
    spec_dot(
        spec_normalised(incoming.spec_direction()),
        spec_normalised(surface_normal.spec_direction()),
    )
}

/// The discriminant `1 - (1/ri)^2 * (1 - dt^2)` at scale `UNIT * UNIT`:
/// `inv` carries `1/ri` at scale `UNIT`, so `inv^2 * k` carries the product
/// at scale `UNIT^4` and one division by `UNIT^2` brings it back alongside
/// the leading one. Negative or zero means total internal reflection.
pub open spec fn spec_dialectic_disc(m: Dialectic, incoming: Ray, surface_normal: Ray) -> int {
    let u2 = UNIT as int * UNIT;
    let dt = spec_dialectic_dt(incoming, surface_normal);
    let inv = tdiv(u2, m.spec_refractive_index());
    let k = u2 - tdiv(dt * dt, u2);
    u2 - tdiv(inv * inv * k, u2)
}

/// The refracted direction `(uv - n * dt) * (1/ri) - n * sqrt(disc)`, in
/// fixed point.
pub open spec fn spec_dialectic_dir(m: Dialectic, incoming: Ray, surface_normal: Ray) -> Vec3<
    i64,
> {
    let u2 = UNIT as int * UNIT;
    let uv = spec_normalised(incoming.spec_direction());
    let n = spec_normalised(surface_normal.spec_direction());
    let dt = spec_dialectic_dt(incoming, surface_normal);
    let inv = tdiv(u2, m.spec_refractive_index());
    let s = spec_isqrt(spec_dialectic_disc(m, incoming, surface_normal));
    Vec3(
        (tdiv((uv.0 - tdiv(n.0 * dt, u2)) * inv, UNIT as int) - tdiv(n.0 * s, UNIT as int)) as i64,
        (tdiv((uv.1 - tdiv(n.1 * dt, u2)) * inv, UNIT as int) - tdiv(n.1 * s, UNIT as int)) as i64,
        (tdiv((uv.2 - tdiv(n.2 * dt, u2)) * inv, UNIT as int) - tdiv(n.2 * s, UNIT as int)) as i64,
    )
}

impl Dialectic {
    pub closed spec fn spec_refractive_index(self) -> int {
        self.refractive_index as int
    }

    /// The refractive index is positive (at least one millionth, the
    /// machine minimum for the fixed-point division) and bounded. Indices
    /// below one model leaving into a less dense medium, where total
    /// internal reflection can occur.
    #[verifier::type_invariant]
    pub open spec fn wf(self) -> bool {
        1 <= self.spec_refractive_index() <= RI_LIMIT
    }

    pub fn new(refractive_index: i64) -> (m: Dialectic)
        requires
            1 <= refractive_index <= RI_LIMIT,
        ensures
            m.spec_refractive_index() == refractive_index,
    {
        Dialectic { refractive_index }
    }

    /// Refract by Snell's law; on a nonpositive discriminant (total
    /// internal reflection) hand the incoming ray back unchanged.
    pub fn sample_gathering_ray(&self, reflected_ray: &Ray, surface_normal: &Ray) -> (r: Ray)
        requires
            scatter_inputs_ok(*reflected_ray, *surface_normal),
        ensures
            spec_dialectic_disc(*self, *reflected_ray, *surface_normal) > 0 ==> r.spec_origin()
                == surface_normal.spec_origin() && r.spec_direction() == spec_dialectic_dir(
                *self,
                *reflected_ray,
                *surface_normal,
            ),
            spec_dialectic_disc(*self, *reflected_ray, *surface_normal) <= 0 ==> r
                == *reflected_ray,
    {
        proof {
            use_type_invariant(*self);
        }
        let u2: i128 = (UNIT as i128) * (UNIT as i128);
        let uv = reflected_ray.get_direction().normalised();
        let n = surface_normal.get_direction().normalised();
        let dt: i64 = uv.dot(n);
        proof {
            crate::vec3::lemma_dot_range(uv, n, UNIT as int);
            lemma_mul_bound(dt as int, dt as int, 3 * u2 as int, 3 * u2 as int);
            lemma_tdiv_bound(dt as int * dt, u2 as int, 9 * u2 as int * u2);
            lemma_div_u2(9 * u2 as int, u2 as int);
        }
        let inv: i64 = div_i128(u2, self.refractive_index as i128) as i64;
        let k: i128 = u2 - div_i128((dt as i128) * (dt as i128), u2);
        proof {
            // `0 <= inv <= u2` (the refractive index is at least one
            // millionth).
            crate::num::lemma_div_le(u2 as int, self.refractive_index as int);
            // `|inv * inv * k| <= (u2 * u2) * (10 * u2)`, and the quotient
            // by `u2` is at most `10 * u2 * u2`.
            lemma_mul_bound(inv as int, inv as int, u2 as int, u2 as int);
            lemma_mul_bound(inv as int * inv, k as int, u2 as int * u2, 10 * u2 as int);
            lemma_tdiv_bound(inv as int * inv * k, u2 as int, (u2 as int * u2) * (10 * u2 as int));
            lemma_div_u2(10 * u2 as int * (u2 as int), u2 as int);
            assert((10 * u2 as int * (u2 as int)) * u2 == (u2 as int * u2) * (10 * u2 as int))
                by (nonlinear_arith);
        }
        let disc: i128 = u2 - div_i128((inv as i128) * (inv as i128) * k, u2);
        if disc > 0 {
            proof {
                lemma_isqrt_bracket(disc as int);
                assert((5_000_000 * UNIT as int) * (5_000_000 * UNIT as int)
                    == 25_000_000_000_000_000_000_000_000int && (5_000_000 * UNIT as int)
                    * (5_000_000 * UNIT as int) < (5_000_000 * UNIT as int + 1) * (5_000_000
                    * UNIT as int + 1)) by (nonlinear_arith)
                    requires
                        UNIT == 1_000_000i64,
                ;
                lemma_isqrt_unique(25_000_000_000_000_000_000_000_000int, 5_000_000 * UNIT as int);
                lemma_isqrt_ordered(disc as int, 25_000_000_000_000_000_000_000_000int);
            }
            let s: i64 = isqrt_u128(disc as u128) as i64;
            proof {
                lemma_refract_bounds(n.0 as int, uv.0 as int, dt as int, inv as int, s as int);
                lemma_refract_bounds(n.1 as int, uv.1 as int, dt as int, inv as int, s as int);
                lemma_refract_bounds(n.2 as int, uv.2 as int, dt as int, inv as int, s as int);
            }
            let ui: i128 = UNIT as i128;
            let x = div_i128((uv.0 as i128 - div_i128((n.0 as i128) * (dt as i128), u2)) * (
            inv as i128), ui) - div_i128((n.0 as i128) * (s as i128), ui);
            let y = div_i128((uv.1 as i128 - div_i128((n.1 as i128) * (dt as i128), u2)) * (
            inv as i128), ui) - div_i128((n.1 as i128) * (s as i128), ui);
            let z = div_i128((uv.2 as i128 - div_i128((n.2 as i128) * (dt as i128), u2)) * (
            inv as i128), ui) - div_i128((n.2 as i128) * (s as i128), ui);
            Ray::new(*surface_normal.get_origin(), Vec3(x as i64, y as i64, z as i64))
        } else {
            *reflected_ray
        }
    }

    /// Glass does not tint: the colour passes through unchanged.
    pub fn colour(
        &self,
        start_colour: Colour,
        _surface_normal: &Ray,
        _angle_of_incidence: i64,
    ) -> (c: Colour)
        ensures
            c == start_colour,
    {
        start_colour
    }
}

/// `(b * x) / x == b` for the constant denominators used above.
proof fn lemma_div_u2(b: int, x: int)
    requires
        0 <= b,
        1 <= x,
    ensures
        (b * x) / x == b,
        (x * b) / x == b,
{
    crate::num::lemma_div_scaled(b, 1, x);
    assert(b * x == x * b) by (nonlinear_arith);
}

/// Range facts for one component of the refracted direction.
proof fn lemma_refract_bounds(ni: int, uvi: int, dt: int, inv: int, s: int)
    requires
        -UNIT <= ni <= UNIT,
        -UNIT <= uvi <= UNIT,
        -(3 * UNIT as int * UNIT) <= dt <= 3 * UNIT as int * UNIT,
        0 <= inv <= UNIT as int * UNIT,
        0 <= s <= 5_000_000 * UNIT as int,
    ensures
        -(3 * UNIT as int * UNIT * UNIT) <= ni * dt <= 3 * UNIT as int * UNIT * UNIT,
        -(3 * UNIT as int) <= tdiv(ni * dt, UNIT as int * UNIT) <= 3 * UNIT as int,
        -(4 * UNIT as int * (UNIT as int * UNIT)) <= (uvi - tdiv(ni * dt, UNIT as int * UNIT))
            * inv <= 4 * UNIT as int * (UNIT as int * UNIT),
        -(4 * UNIT as int * UNIT) <= tdiv(
            (uvi - tdiv(ni * dt, UNIT as int * UNIT)) * inv,
            UNIT as int,
        ) <= 4 * UNIT as int * UNIT,
        -(5_000_000 * (UNIT as int * UNIT)) <= ni * s <= 5_000_000 * (UNIT as int * UNIT),
        -(5_000_000 * UNIT as int) <= tdiv(ni * s, UNIT as int) <= 5_000_000 * UNIT as int,
{
    let u2 = UNIT as int * UNIT;
    lemma_mul_bound(ni, dt, UNIT as int, 3 * u2);
    assert(UNIT as int * (3 * u2) == 3 * UNIT as int * u2 && 3 * UNIT as int * u2 == 3
        * UNIT as int * UNIT * UNIT) by (nonlinear_arith)
        requires
            u2 == UNIT as int * UNIT,
    ;
    lemma_tdiv_bound(ni * dt, u2, 3 * UNIT as int * u2);
    lemma_div_u2(3 * UNIT as int, u2);
    lemma_mul_bound(uvi - tdiv(ni * dt, u2), inv, 4 * UNIT as int, u2);
    assert((4 * UNIT as int) * u2 == (4 * UNIT as int * UNIT) * UNIT && 4 * UNIT as int * (u2) == (
    4 * UNIT as int) * u2) by (nonlinear_arith)
        requires
            u2 == UNIT as int * UNIT,
    ;
    lemma_tdiv_bound((uvi - tdiv(ni * dt, u2)) * inv, UNIT as int, (4 * UNIT as int * UNIT) * UNIT);
    lemma_div_u2(4 * UNIT as int * UNIT, UNIT as int);
    lemma_mul_bound(ni, s, UNIT as int, 5_000_000 * UNIT as int);
    assert(UNIT as int * (5_000_000 * UNIT as int) == 5_000_000 * (UNIT as int * UNIT) && (
    5_000_000 * UNIT as int) * UNIT == 5_000_000 * (UNIT as int * UNIT)) by (nonlinear_arith);
    lemma_tdiv_bound(ni * s, UNIT as int, (5_000_000 * UNIT as int) * UNIT);
    lemma_div_u2(5_000_000 * UNIT as int, UNIT as int);
}

} // verus!
