//! The intersection protocol: anything that can be hit by a ray yields the
//! material at the nearest valid intersection together with the surface
//! normal there.

use crate::material::Material;
use crate::ray::Ray;
use crate::sphere::HIT_POINT_LIMIT;
use crate::vec3::{in_range, spec_dot, MIN_UNIT_DOT, UNIT};
use vstd::prelude::*;

verus! {

/// The result of a successful intersection: the material of the surface,
/// and a ray whose origin is the intersection point and whose direction is
/// the outward unit normal. That ray is never traced; the `Ray` type is
/// reused to avoid a second point-plus-vector type.
#[derive(Clone, Copy)]
pub struct MaterialHit {
    pub material: Material,
    pub intersected_surface_normal: Ray,
}

/// Range facts every returned hit satisfies: the intersection point is in
/// range and the normal is a nonzero unit vector up to rounding.
pub open spec fn hit_normal_ok(h: MaterialHit) -> bool {
    &&& in_range(h.intersected_surface_normal.spec_origin(), HIT_POINT_LIMIT as int)
    &&& in_range(h.intersected_surface_normal.spec_direction(), UNIT as int)
    &&& spec_dot(
        h.intersected_surface_normal.spec_direction(),
        h.intersected_surface_normal.spec_direction(),
    ) >= MIN_UNIT_DOT
}

/// Defines a type which can be hit with a ray. Note that the ray is traced
/// backward: `from` leaves the camera. `spec_hits` says when a hit occurs
/// and `spec_hit_result` what it is, so callers through the trait know that
/// a miss really is a miss; the concrete types' own `hit` methods carry the
/// full contracts.
pub trait Hit {
    spec fn spec_hits(&self, from: Ray) -> bool;

    spec fn spec_hit_result(&self, from: Ray) -> MaterialHit;

    fn hit(&self, from: &Ray) -> (r: Option<MaterialHit>)
        requires
            from.traceable(),
        ensures
            r is Some <==> self.spec_hits(*from),
            r matches Some(h) ==> h == self.spec_hit_result(*from) && hit_normal_ok(h),
    ;
}

} // verus!
