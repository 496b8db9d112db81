//! A visualisation material: the gathered ray is the surface normal itself,
//! and the colour maps the normal's direction linearly into `[0, UNIT]` per
//! channel (`(n + 1) / 2`). Not a physical material.

use crate::colour::Colour;
use crate::num::{div_i128, tdiv};
use crate::ray::Ray;
use crate::vec3::{in_range, spec_dot, spec_normalised, UNIT};
use vstd::prelude::*;

verus! {

#[derive(Debug, Clone, Copy)]
pub struct Debugon;

/// Channel `idx` (0 red, 1 green, 2 blue) of the normal-visualising colour:
/// the normalised direction's component mapped from `[-UNIT, UNIT]` into
/// `[0, UNIT]`.
pub open spec fn spec_debug_channel(surface_normal: Ray, idx: int) -> int {
    let nd = spec_normalised(surface_normal.spec_direction());
    let c = if idx == 0 {
        nd.0 as int
    } else if idx == 1 {
        nd.1 as int
    } else {
        nd.2 as int
    };
    (c + UNIT) / 2
}

impl Debugon {
    pub fn new() -> (m: Debugon)
        ensures
            m == (Debugon),
    {
        Debugon
    }

    /// Hand the surface normal back as the next ray; the path ends there in
    /// practice, since the normal's own intersection is behind it.
    pub fn sample_gathering_ray(&self, _reflected_ray: &Ray, surface_normal: &Ray) -> (r: Ray)
        ensures
            r == *surface_normal,
    {
        *surface_normal
    }

    /// Ignore the incoming colour and angle entirely: visualise the normal.
    pub fn colour(
        &self,
        _start_colour: Colour,
        surface_normal: &Ray,
        _angle_of_incidence: i64,
    ) -> (c: Colour)
        requires
            in_range(surface_normal.spec_direction(), UNIT as int),
            spec_dot(surface_normal.spec_direction(), surface_normal.spec_direction()) >= 1,
        ensures
            c.spec_red() == spec_debug_channel(*surface_normal, 0),
            c.spec_green() == spec_debug_channel(*surface_normal, 1),
            c.spec_blue() == spec_debug_channel(*surface_normal, 2),
    {
        let nd = surface_normal.get_direction().normalised();
        let r = div_i128((nd.0 as i128) + (UNIT as i128), 2);
        let g = div_i128((nd.1 as i128) + (UNIT as i128), 2);
        let b = div_i128((nd.2 as i128) + (UNIT as i128), 2);
        Colour::new(r as i64, g as i64, b as i64)
    }
}

} // verus!
