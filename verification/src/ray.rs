//! A ray: an origin point plus a direction vector. The same type also
//! carries surface normals ("origin = hit point, direction = outward unit
//! normal"); a ray in that role is never traced further.

use crate::vec3::{in_range, spec_dot, Vec3, MIN_UNIT_DOT};
use crate::WorldVec;
use vstd::prelude::*;

verus! {

/// Largest coordinate magnitude a traceable ray origin may have.
pub const COORD_LIMIT: i64 = 2_000_000_000;

/// Largest coordinate magnitude a traceable ray direction may have
/// (16 units: directions handed to the tracer are unit vectors up to
/// fixed-point rounding, with headroom for unnormalised material output).
pub const DIR_LIMIT: i64 = 16_000_000;

#[derive(Debug, Copy, Clone, PartialEq, Eq, Structural)]
pub struct Ray {
    pub origin: WorldVec,  // A point.
    pub direction: WorldVec,  // A vector pointing in the ray's direction.
}

/// Build a ray in specifications.
pub open spec fn spec_ray(origin: WorldVec, direction: WorldVec) -> Ray {
    Ray { origin, direction }
}

impl Ray {
    pub open spec fn spec_origin(self) -> WorldVec {
        self.origin
    }

    pub open spec fn spec_direction(self) -> WorldVec {
        self.direction
    }

    /// The ray can be handed to the intersection test without its
    /// fixed-point arithmetic leaving range: coordinates bounded, direction
    /// bounded and no shorter than half a unit.
    pub open spec fn traceable(self) -> bool {
        &&& in_range(self.spec_origin(), COORD_LIMIT as int)
        &&& in_range(self.spec_direction(), DIR_LIMIT as int)
        &&& spec_dot(self.spec_direction(), self.spec_direction()) >= MIN_UNIT_DOT
    }

    pub fn new(origin: WorldVec, direction: WorldVec) -> (r: Ray)
        ensures
            r.spec_origin() == origin,
            r.spec_direction() == direction,
    {
        Ray { origin, direction }
    }

    pub fn get_origin(&self) -> (r: &WorldVec)
        ensures
            *r == self.spec_origin(),
    {
        &self.origin
    }

    pub fn get_direction(&self) -> (r: &WorldVec)
        ensures
            *r == self.spec_direction(),
    {
        &self.direction
    }

    /// Decide `traceable` at run time; the tracer stops a path rather than
    /// follow a ray that degenerate geometry has thrown out of range.
    pub fn is_traceable(&self) -> (b: bool)
        ensures
            b == self.traceable(),
    {
        let o = &self.origin;
        let d = &self.direction;
        let oin = o.0 >= -COORD_LIMIT && o.0 <= COORD_LIMIT && o.1 >= -COORD_LIMIT && o.1
            <= COORD_LIMIT && o.2 >= -COORD_LIMIT && o.2 <= COORD_LIMIT;
        let din = d.0 >= -DIR_LIMIT && d.0 <= DIR_LIMIT && d.1 >= -DIR_LIMIT && d.1 <= DIR_LIMIT
            && d.2 >= -DIR_LIMIT && d.2 <= DIR_LIMIT;
        if oin && din {
            self.direction.dot(self.direction) >= MIN_UNIT_DOT
        } else {
            false
        }
    }
}

} // verus!
