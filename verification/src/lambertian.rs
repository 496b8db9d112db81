//! An ideal diffuse material: it scatters into a uniformly sampled direction
//! and attenuates by its base colour, ignoring the angle of incidence.

use crate::colour::{lemma_attenuate_bounds, Colour};
use crate::material::{random_unit_vector_in_sphere, scatter_inputs_ok};
use crate::num::div_i128;
use crate::ray::Ray;
use crate::vec3::{in_range, spec_dot, MIN_UNIT_DOT, UNIT};
use vstd::prelude::*;

verus! {

#[derive(Debug, Clone, Copy)]
pub struct Lambertian {
    colour: Colour,
}

impl Lambertian {
    pub closed spec fn spec_colour(self) -> Colour {
        self.colour
    }

    pub fn new(colour: Colour) -> (m: Lambertian)
        ensures
            m.spec_colour() == colour,
    {
        Lambertian { colour }
    }

    /// Trace backward as a diffuse bounce: a fresh ray from the surface
    /// point along a random unit direction. Nothing more is promised of the
    /// direction than its range: it is random.
    pub fn sample_gathering_ray(
        &self,
        reflected_ray: &Ray,
        surface_normal: &Ray,
        rng: &mut rand::rngs::SmallRng,
    ) -> (r: Ray)
        requires
            scatter_inputs_ok(*reflected_ray, *surface_normal),
        ensures
            r.spec_origin() == surface_normal.spec_origin(),
            in_range(r.spec_direction(), UNIT as int),
            spec_dot(r.spec_direction(), r.spec_direction()) >= MIN_UNIT_DOT,
    {
        let dir = random_unit_vector_in_sphere(rng);
        Ray::new(*surface_normal.get_origin(), dir.normalised())
    }

    /// Channel-wise attenuation by the base colour; perfectly diffuse, so
    /// the angle of incidence is ignored.
    pub fn colour(
        &self,
        start_colour: Colour,
        _surface_normal: &Ray,
        _angle_of_incidence: i64,
    ) -> (c: Colour)
        ensures
            c.spec_red() == self.spec_colour().spec_red() * start_colour.spec_red() / (UNIT as int),
            c.spec_green() == self.spec_colour().spec_green() * start_colour.spec_green() / (UNIT as int),
            c.spec_blue() == self.spec_colour().spec_blue() * start_colour.spec_blue() / (UNIT as int),
    {
        attenuate(&self.colour, &start_colour)
    }
}

/// Multiply two colours channel by channel (both have channels in
/// `[0, UNIT]`, so the product rescaled by `UNIT` does too).
pub(crate) fn attenuate(base: &Colour, start: &Colour) -> (c: Colour)
    ensures
        c.spec_red() == base.spec_red() * start.spec_red() / (UNIT as int),
        c.spec_green() == base.spec_green() * start.spec_green() / (UNIT as int),
        c.spec_blue() == base.spec_blue() * start.spec_blue() / (UNIT as int),
{
    proof {
        use_type_invariant(base);
        use_type_invariant(start);
        lemma_attenuate_bounds(base.spec_red(), start.spec_red());
        lemma_attenuate_bounds(base.spec_green(), start.spec_green());
        lemma_attenuate_bounds(base.spec_blue(), start.spec_blue());
    }
    let r = div_i128((base.get_red() as i128) * (start.get_red() as i128), UNIT as i128);
    let g = div_i128((base.get_green() as i128) * (start.get_green() as i128), UNIT as i128);
    let b = div_i128((base.get_blue() as i128) * (start.get_blue() as i128), UNIT as i128);
    Colour::new(r as i64, g as i64, b as i64)
}

} // verus!
