//! The material protocol: given the ray being traced backward and the
//! surface normal at the hit, a material yields the next ray to gather light
//! along, and attenuates a colour on the forward pass.

use crate::colour::{rgb, Colour};
use crate::debugon::Debugon;
use crate::dialectic::{spec_dialectic_dir, spec_dialectic_disc, Dialectic};
use crate::lambertian::Lambertian;
use crate::metal::{spec_metal_dir, Metal};
use crate::ray::{Ray, COORD_LIMIT};
use crate::rng::rng_range;
use crate::vec3::{in_range, spec_dot, Vec3, MIN_UNIT_DOT, UNIT};
use crate::WorldVec;
use vstd::prelude::*;

verus! {

/// What every scatter call may assume of its two rays: the traced ray is
/// traceable, and the surface normal has an in-range origin and a nonzero
/// direction no longer than a unit.
pub open spec fn scatter_inputs_ok(reflected_ray: Ray, surface_normal: Ray) -> bool {
    &&& reflected_ray.traceable()
    &&& in_range(surface_normal.spec_origin(), COORD_LIMIT as int)
    &&& in_range(surface_normal.spec_direction(), UNIT as int)
    &&& spec_dot(surface_normal.spec_direction(), surface_normal.spec_direction()) >= 1
}

/// Decide `scatter_inputs_ok` at run time; the tracer checks it before
/// every material call instead of trusting intermediate geometry.
pub fn scatter_inputs_check(reflected_ray: &Ray, surface_normal: &Ray) -> (b: bool)
    ensures
        b == scatter_inputs_ok(*reflected_ray, *surface_normal),
{
    if !reflected_ray.is_traceable() {
        return false;
    }
    let o = surface_normal.get_origin();
    let d = surface_normal.get_direction();
    let oin = o.0 >= -COORD_LIMIT && o.0 <= COORD_LIMIT && o.1 >= -COORD_LIMIT && o.1 <= COORD_LIMIT
        && o.2 >= -COORD_LIMIT && o.2 <= COORD_LIMIT;
    let din = d.0 >= -UNIT && d.0 <= UNIT && d.1 >= -UNIT && d.1 <= UNIT && d.2 >= -UNIT && d.2
        <= UNIT;
    if oin && din {
        let dd = d.dot(*d);
        dd >= 1
    } else {
        false
    }
}

/// A uniformly-drawn direction of (fixed-point) unit length: rejection
/// sampling inside the unit ball, then normalisation. The result is random;
/// all that is promised is its range and that it is a unit vector up to
/// rounding. After many rejected draws in a row it falls back to an axis.
pub fn random_unit_vector_in_sphere(rng: &mut rand::rngs::SmallRng) -> (v: WorldVec)
    ensures
        in_range(v, UNIT as int),
        spec_dot(v, v) >= MIN_UNIT_DOT,
{
    let mut attempts: usize = 0;
    while attempts < 64
        invariant
            attempts <= 64,
        decreases 64 - attempts,
    {
        let x = rng_range(rng, -UNIT, UNIT);
        let y = rng_range(rng, -UNIT, UNIT);
        let z = rng_range(rng, -UNIT, UNIT);
        let v = Vec3(x, y, z);
        let d = v.dot(v);
        if d >= 1 && d <= UNIT * UNIT {
            return v.normalised();
        }
        attempts = attempts + 1;
    }
    Vec3(UNIT, 0, 0)
}

/// What `Material::colour` returns, channel by channel: Lambertian and
/// Metal attenuate by their base colour, glass is the identity, and the
/// debug material visualises the surface normal.
pub open spec fn spec_material_colour(m: Material, start: (int, int, int), surface_normal: Ray) -> (
    int,
    int,
    int,
) {
    match m {
        Material::Lambertian(l) => (
            l.spec_colour().spec_red() * start.0 / (UNIT as int),
            l.spec_colour().spec_green() * start.1 / (UNIT as int),
            l.spec_colour().spec_blue() * start.2 / (UNIT as int),
        ),
        Material::Metal(mm) => (
            mm.spec_colour().spec_red() * start.0 / (UNIT as int),
            mm.spec_colour().spec_green() * start.1 / (UNIT as int),
            mm.spec_colour().spec_blue() * start.2 / (UNIT as int),
        ),
        Material::Dialectic(_) => start,
        Material::Debugon(_) => (
            crate::debugon::spec_debug_channel(surface_normal, 0),
            crate::debugon::spec_debug_channel(surface_normal, 1),
            crate::debugon::spec_debug_channel(surface_normal, 2),
        ),
    }
}

/// The closed set of materials. Dispatch is by variant; each variant's
/// behaviour is stated and proved on its own type.
#[derive(Debug, Clone, Copy)]
pub enum Material {
    Lambertian(Lambertian),
    Metal(Metal),
    Dialectic(Dialectic),
    Debugon(Debugon),
}

impl Material {
    /// Given some reflected ray, trace it in the backward direction: the
    /// returned ray is the direction light is gathered from. Deterministic
    /// variants (Metal, Dialectic, Debugon) are pinned exactly; the
    /// Lambertian direction is random and only its range is promised.
    pub fn sample_gathering_ray(
        &self,
        reflected_ray: &Ray,
        surface_normal: &Ray,
        rng: &mut rand::rngs::SmallRng,
    ) -> (r: Ray)
        requires
            scatter_inputs_ok(*reflected_ray, *surface_normal),
        ensures
            self is Lambertian ==> r.spec_origin() == surface_normal.spec_origin() && in_range(
                r.spec_direction(),
                UNIT as int,
            ) && spec_dot(r.spec_direction(), r.spec_direction()) >= MIN_UNIT_DOT,
            self is Metal ==> r.spec_origin() == surface_normal.spec_origin()
                && r.spec_direction() == spec_metal_dir(*reflected_ray, *surface_normal),
            self matches Material::Dialectic(m) ==> (if spec_dialectic_disc(
                *m,
                *reflected_ray,
                *surface_normal,
            ) > 0 {
                r.spec_origin() == surface_normal.spec_origin() && r.spec_direction()
                    == spec_dialectic_dir(*m, *reflected_ray, *surface_normal)
            } else {
                r == *reflected_ray
            }),
            self is Debugon ==> r == *surface_normal,
    {
        match self {
            Material::Lambertian(m) => m.sample_gathering_ray(reflected_ray, surface_normal, rng),
            Material::Metal(m) => m.sample_gathering_ray(reflected_ray, surface_normal),
            Material::Dialectic(m) => m.sample_gathering_ray(reflected_ray, surface_normal),
            Material::Debugon(m) => m.sample_gathering_ray(reflected_ray, surface_normal),
        }
    }

    /// Attenuate `start_colour` at this surface on the forward pass. The
    /// angle of incidence is carried for the protocol's sake; no present
    /// material's attenuation depends on it.
    pub fn colour(
        &self,
        start_colour: Colour,
        surface_normal: &Ray,
        angle_of_incidence: i64,
    ) -> (c: Colour)
        requires
            in_range(surface_normal.spec_direction(), UNIT as int),
            spec_dot(surface_normal.spec_direction(), surface_normal.spec_direction()) >= 1,
        ensures
            rgb(c) == spec_material_colour(*self, rgb(start_colour), *surface_normal),
            self is Dialectic ==> c == start_colour,
    {
        match self {
            Material::Lambertian(m) => m.colour(start_colour, surface_normal, angle_of_incidence),
            Material::Metal(m) => m.colour(start_colour, surface_normal, angle_of_incidence),
            Material::Dialectic(m) => m.colour(start_colour, surface_normal, angle_of_incidence),
            Material::Debugon(m) => m.colour(start_colour, surface_normal, angle_of_incidence),
        }
    }
}

} // verus!
