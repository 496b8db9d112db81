//! A mirror material: the gathered ray is the traced ray's direction
//! reflected about the surface normal, and the colour is attenuated by the
//! metal's own tint.

use crate::colour::Colour;
use crate::lambertian::attenuate;
use crate::material::scatter_inputs_ok;
use crate::num::{div_i128, lemma_mul_bound, lemma_tdiv_bound, tdiv};
use crate::ray::{Ray, DIR_LIMIT};
use crate::vec3::{in_range, lemma_dot_range2, spec_dot, spec_normalised, Vec3, UNIT};
use vstd::prelude::*;

verus! {

#[derive(Debug, Clone, Copy)]
pub struct Metal {
    colour: Colour,
    fuzziness: i64,
}

/// The reflection of the traced ray's direction `d` about the normal
/// direction `n`: `d - n * 2 * (n_hat . d)`, in fixed point, where `n_hat`
/// is `n` normalised.
pub open spec fn spec_metal_dir(reflected_ray: Ray, surface_normal: Ray) -> Vec3<i64> {
    let d = reflected_ray.spec_direction();
    let n = surface_normal.spec_direction();
    let dp = spec_dot(spec_normalised(n), d);
    Vec3(
        (d.0 - tdiv(2 * n.0 * dp, UNIT as int * UNIT)) as i64,
        (d.1 - tdiv(2 * n.1 * dp, UNIT as int * UNIT)) as i64,
        (d.2 - tdiv(2 * n.2 * dp, UNIT as int * UNIT)) as i64,
    )
}

/// The mirror law, with no rounding at all, for the canonical surface
/// normal `(0, 1, 0)`: reflecting any incident direction negates exactly
/// its component along the normal and keeps the other two, so the cosine of
/// the angle of incidence equals the cosine of the angle of reflection.
/// (Every division in the reflection divides evenly for an axis normal; for
/// general normals the same law holds up to fixed-point rounding, which the
/// five-hundred-draw runtime test exercises.)
pub proof fn lemma_metal_mirror_preserves_cosine(reflected_ray: Ray, surface_normal: Ray)
    requires
        surface_normal.spec_direction() == (Vec3(0i64, UNIT, 0i64)),
        in_range(reflected_ray.spec_direction(), DIR_LIMIT as int),
    ensures
        spec_metal_dir(reflected_ray, surface_normal).0 == reflected_ray.spec_direction().0,
        spec_metal_dir(reflected_ray, surface_normal).1 == -reflected_ray.spec_direction().1,
        spec_metal_dir(reflected_ray, surface_normal).2 == reflected_ray.spec_direction().2,
        spec_dot(spec_metal_dir(reflected_ray, surface_normal), surface_normal.spec_direction())
            == -spec_dot(reflected_ray.spec_direction(), surface_normal.spec_direction()),
{
    let d = reflected_ray.spec_direction();
    let n = surface_normal.spec_direction();
    // The axis normal is its own normalisation: its length is exactly UNIT.
    assert(spec_dot(n, n) == UNIT as int * UNIT) by (nonlinear_arith)
        requires
            n == (Vec3(0i64, UNIT, 0i64)),
    ;
    assert((UNIT as int) * UNIT < (UNIT as int + 1) * (UNIT as int + 1)) by (nonlinear_arith);
    crate::num::lemma_isqrt_unique(UNIT as int * UNIT, UNIT as int);
    lemma_tdiv_exact(0, UNIT as int);
    lemma_tdiv_exact(UNIT as int, UNIT as int);
    assert(0 * UNIT == 0int * (UNIT as int) && UNIT as int * UNIT == (UNIT as int) * (
    UNIT as int)) by (nonlinear_arith);
    let nhat = spec_normalised(n);
    assert(nhat == (Vec3(0i64, UNIT, 0i64)));
    // The dot against the unit axis picks out the y component, scaled.
    let dp = spec_dot(nhat, d);
    assert(dp == UNIT as int * d.1) by (nonlinear_arith)
        requires
            nhat == (Vec3(0i64, UNIT, 0i64)),
            dp == spec_dot(nhat, d),
    ;
    // Every reflection term divides evenly by UNIT^2.
    assert(2 * (n.0 as int) * dp == 0 * (UNIT as int * UNIT) && 2 * (n.2 as int) * dp == 0 * (
    UNIT as int * UNIT) && 2 * (n.1 as int) * dp == (2 * d.1) * (UNIT as int * UNIT))
        by (nonlinear_arith)
        requires
            n == (Vec3(0i64, UNIT, 0i64)),
            dp == UNIT as int * d.1,
    ;
    lemma_tdiv_exact(0, UNIT as int * UNIT);
    lemma_tdiv_exact(2 * d.1, UNIT as int * UNIT);
    let r = spec_metal_dir(reflected_ray, surface_normal);
    assert(r.0 == d.0 && r.1 == d.1 - 2 * d.1 && r.2 == d.2);
    assert(spec_dot(r, n) == UNIT as int * r.1 && spec_dot(d, n) == UNIT as int * d.1
        && UNIT as int * (d.1 - 2 * d.1) == -(UNIT as int * d.1)) by (nonlinear_arith)
        requires
            n == (Vec3(0i64, UNIT, 0i64)),
            r.1 == d.1 - 2 * d.1,
    ;
}

/// `(q * x) / x == q` for positive `x`, truncating division, either sign of
/// `q`.
proof fn lemma_tdiv_exact(q: int, x: int)
    requires
        1 <= x,
    ensures
        tdiv(q * x, x) == q,
{
    if q >= 0 {
        crate::num::lemma_div_scaled(q, 1, x);
    } else {
        crate::num::lemma_div_scaled(-q, 1, x);
        assert((-q) * x == -(q * x)) by (nonlinear_arith);
    }
}

/// Range facts for one component of the reflection term `2 * n * dp / UNIT^2`.
proof fn lemma_reflect_term(ni: int, dp: int)
    requires
        -UNIT <= ni <= UNIT,
        -(3 * UNIT as int * DIR_LIMIT) <= dp <= 3 * UNIT as int * DIR_LIMIT,
    ensures
        -(6 * UNIT as int * UNIT * DIR_LIMIT) <= 2 * ni * dp <= 6 * UNIT as int * UNIT * DIR_LIMIT,
        -(6 * DIR_LIMIT as int) <= tdiv(2 * ni * dp, UNIT as int * UNIT) <= 6 * DIR_LIMIT as int,
{
    let u2 = UNIT as int * UNIT;
    lemma_mul_bound(2 * ni, dp, 2 * UNIT as int, 3 * UNIT as int * DIR_LIMIT);
    assert((2 * UNIT as int) * (3 * UNIT as int * DIR_LIMIT) == (6 * DIR_LIMIT as int) * u2
        && 2 * ni * dp == (2 * ni) * dp) by (nonlinear_arith)
        requires
            u2 == UNIT as int * UNIT,
    ;
    lemma_tdiv_bound(2 * ni * dp, u2, (6 * DIR_LIMIT as int) * u2);
    crate::num::lemma_div_scaled(6 * DIR_LIMIT as int, 1, u2);
}

impl Metal {
    pub closed spec fn spec_colour(self) -> Colour {
        self.colour
    }

    pub closed spec fn spec_fuzziness(self) -> int {
        self.fuzziness as int
    }

    /// `fuzziness` is a fixed-point roughness parameter, stored for the
    /// protocol's sake; the reflection itself is a perfect mirror.
    pub fn new(colour: Colour, fuzziness: i64) -> (m: Metal)
        ensures
            m.spec_colour() == colour,
            m.spec_fuzziness() == fuzziness,
    {
        Metal { colour, fuzziness }
    }

    /// Mirror reflection: the angle the gathered ray makes with the normal
    /// equals the angle the traced ray makes with it (up to fixed-point
    /// rounding).
    pub fn sample_gathering_ray(&self, reflected_ray: &Ray, surface_normal: &Ray) -> (r: Ray)
        requires
            scatter_inputs_ok(*reflected_ray, *surface_normal),
        ensures
            r.spec_origin() == surface_normal.spec_origin(),
            r.spec_direction() == spec_metal_dir(*reflected_ray, *surface_normal),
    {
        let d = *reflected_ray.get_direction();
        let n = *surface_normal.get_direction();
        let nhat = n.normalised();
        let dp: i64 = nhat.dot(d);
        proof {
            lemma_dot_range2(nhat, d, UNIT as int, DIR_LIMIT as int);
            lemma_reflect_term(n.0 as int, dp as int);
            lemma_reflect_term(n.1 as int, dp as int);
            lemma_reflect_term(n.2 as int, dp as int);
        }
        let u2: i128 = (UNIT as i128) * (UNIT as i128);
        let rx = d.0 as i128 - div_i128(2 * (n.0 as i128) * (dp as i128), u2);
        let ry = d.1 as i128 - div_i128(2 * (n.1 as i128) * (dp as i128), u2);
        let rz = d.2 as i128 - div_i128(2 * (n.2 as i128) * (dp as i128), u2);
        Ray::new(*surface_normal.get_origin(), Vec3(rx as i64, ry as i64, rz as i64))
    }

    /// Channel-wise attenuation by the metal's tint; the angle of incidence
    /// is ignored.
    pub fn colour(
        &self,
        start_colour: Colour,
        _surface_normal: &Ray,
        _angle_of_incidence: i64,
    ) -> (c: Colour)
        ensures
            c.spec_red() == self.spec_colour().spec_red() * start_colour.spec_red() / (UNIT as int),
            c.spec_green() == self.spec_colour().spec_green() * start_colour.spec_green() / (UNIT as int),
            c.spec_blue() == self.spec_colour().spec_blue() * start_colour.spec_blue() / (UNIT as int),
    {
        attenuate(&self.colour, &start_colour)
    }
}

} // verus!
