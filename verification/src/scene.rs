//! A scene: an ordered collection of primitives, hit by scanning linearly
//! and keeping the closest valid intersection; equal distances keep the
//! earliest object.

use crate::hit::{hit_normal_ok, Hit, MaterialHit};
use crate::ray::{Ray, COORD_LIMIT};
use crate::sphere::{spec_sphere_hit_result, sphere_hits, Sphere, HIT_POINT_LIMIT};
use crate::vec3::{dot_wide, in_range, spec_dot, Vec3};
use vstd::prelude::*;

verus! {

/// The squared distance from the ray origin to the intersection point of a
/// hit (closeness is compared on exact squares; the reference compares the
/// same distances after a square root, which orders identically).
pub open spec fn spec_hit_dist2(from: Ray, h: MaterialHit) -> int {
    let p = h.intersected_surface_normal.spec_origin();
    let d = Vec3(
        (p.0 - from.spec_origin().0) as i64,
        (p.1 - from.spec_origin().1) as i64,
        (p.2 - from.spec_origin().2) as i64,
    );
    spec_dot(d, d)
}

/// `h` is a correct answer for `Scene::hit`: the hit of some object that
/// the ray strikes, no other struck object is strictly closer, and every
/// earlier struck object is strictly farther (first-seen wins ties). At
/// most one `h` satisfies this (`lemma_scene_hit_found_unique`).
pub open spec fn scene_hit_found(s: Scene, from: Ray, h: MaterialHit) -> bool {
    exists|i: int|
        {
            &&& 0 <= i < s.spec_objects().len()
            &&& sphere_hits(#[trigger] s.spec_objects()[i], from)
            &&& h == spec_sphere_hit_result(s.spec_objects()[i], from)
            &&& forall|j: int|
                0 <= j < s.spec_objects().len() && sphere_hits(
                    #[trigger] s.spec_objects()[j],
                    from,
                ) ==> spec_hit_dist2(from, spec_sphere_hit_result(s.spec_objects()[i], from))
                    <= spec_hit_dist2(from, spec_sphere_hit_result(s.spec_objects()[j], from))
            &&& forall|j: int|
                0 <= j < i && sphere_hits(#[trigger] s.spec_objects()[j], from)
                    ==> spec_hit_dist2(from, spec_sphere_hit_result(s.spec_objects()[i], from))
                    < spec_hit_dist2(from, spec_sphere_hit_result(s.spec_objects()[j], from))
        }
}

/// Two correct answers agree: the first index at minimal distance is
/// unique, and the hit it yields with it.
pub proof fn lemma_scene_hit_found_unique(s: Scene, from: Ray, h1: MaterialHit, h2: MaterialHit)
    requires
        scene_hit_found(s, from, h1),
        scene_hit_found(s, from, h2),
    ensures
        h1 == h2,
{
    let i1 = choose|i: int|
        {
            &&& 0 <= i < s.spec_objects().len()
            &&& sphere_hits(#[trigger] s.spec_objects()[i], from)
            &&& h1 == spec_sphere_hit_result(s.spec_objects()[i], from)
            &&& forall|j: int|
                0 <= j < s.spec_objects().len() && sphere_hits(
                    #[trigger] s.spec_objects()[j],
                    from,
                ) ==> spec_hit_dist2(from, spec_sphere_hit_result(s.spec_objects()[i], from))
                    <= spec_hit_dist2(from, spec_sphere_hit_result(s.spec_objects()[j], from))
            &&& forall|j: int|
                0 <= j < i && sphere_hits(#[trigger] s.spec_objects()[j], from)
                    ==> spec_hit_dist2(from, spec_sphere_hit_result(s.spec_objects()[i], from))
                    < spec_hit_dist2(from, spec_sphere_hit_result(s.spec_objects()[j], from))
        };
    let i2 = choose|i: int|
        {
            &&& 0 <= i < s.spec_objects().len()
            &&& sphere_hits(#[trigger] s.spec_objects()[i], from)
            &&& h2 == spec_sphere_hit_result(s.spec_objects()[i], from)
            &&& forall|j: int|
                0 <= j < s.spec_objects().len() && sphere_hits(
                    #[trigger] s.spec_objects()[j],
                    from,
                ) ==> spec_hit_dist2(from, spec_sphere_hit_result(s.spec_objects()[i], from))
                    <= spec_hit_dist2(from, spec_sphere_hit_result(s.spec_objects()[j], from))
            &&& forall|j: int|
                0 <= j < i && sphere_hits(#[trigger] s.spec_objects()[j], from)
                    ==> spec_hit_dist2(from, spec_sphere_hit_result(s.spec_objects()[i], from))
                    < spec_hit_dist2(from, spec_sphere_hit_result(s.spec_objects()[j], from))
        };
    // The two winning indices see each other in their minimality clauses:
    // each distance bounds the other, so an earlier index would have to be
    // strictly farther and strictly no farther at once.
    if i1 < i2 {
        assert(spec_hit_dist2(from, spec_sphere_hit_result(s.spec_objects()[i2], from))
            < spec_hit_dist2(from, spec_sphere_hit_result(s.spec_objects()[i1], from)));
        assert(spec_hit_dist2(from, spec_sphere_hit_result(s.spec_objects()[i1], from))
            <= spec_hit_dist2(from, spec_sphere_hit_result(s.spec_objects()[i2], from)));
    }
    if i2 < i1 {
        assert(spec_hit_dist2(from, spec_sphere_hit_result(s.spec_objects()[i1], from))
            < spec_hit_dist2(from, spec_sphere_hit_result(s.spec_objects()[i2], from)));
        assert(spec_hit_dist2(from, spec_sphere_hit_result(s.spec_objects()[i2], from))
            <= spec_hit_dist2(from, spec_sphere_hit_result(s.spec_objects()[i1], from)));
    }
    assert(i1 == i2);
}

#[derive(Debug)]
pub struct Scene {
    objects: Vec<Sphere>,
}

impl Scene {
    pub closed spec fn spec_objects(self) -> Seq<Sphere> {
        self.objects@
    }

    pub fn new() -> (s: Scene)
        ensures
            s.spec_objects() == Seq::<Sphere>::empty(),
    {
        Scene { objects: Vec::new() }
    }

    /// Append a primitive; insertion order is kept (it breaks distance
    /// ties).
    pub fn add_object(&mut self, hit: Sphere)
        ensures
            final(self).spec_objects() == old(self).spec_objects().push(hit),
    {
        self.objects.push(hit);
    }

    /// Linear scan over the objects: `Some` exactly when some object hits,
    /// and the result is the hit of the earliest object at minimal squared
    /// distance from the ray origin.
    pub fn hit(&self, from: &Ray) -> (r: Option<MaterialHit>)
        requires
            from.traceable(),
        ensures
            r is Some <==> exists|i: int|
                0 <= i < self.spec_objects().len() && sphere_hits(
                    #[trigger] self.spec_objects()[i],
                    *from,
                ),
            r matches Some(h) ==> scene_hit_found(*self, *from, h) && hit_normal_ok(h),
    {
        let mut current_hit_candidate: Option<MaterialHit> = None;
        let mut current_dist: i128 = 0;
        let ghost mut best_i: int = 0int;
        let n = self.objects.len();
        for k in 0..n
            invariant
                n == self.spec_objects().len(),
                from.traceable(),
                current_hit_candidate is None ==> forall|j: int|
                    0 <= j < k ==> !sphere_hits(#[trigger] self.spec_objects()[j], *from),
                current_hit_candidate matches Some(h) ==> {
                    &&& hit_normal_ok(h)
                    &&& 0 <= best_i < k
                    &&& sphere_hits(self.spec_objects()[best_i], *from)
                    &&& h == spec_sphere_hit_result(self.spec_objects()[best_i], *from)
                    &&& current_dist == spec_hit_dist2(*from, h)
                    &&& forall|j: int|
                        0 <= j < k && sphere_hits(#[trigger] self.spec_objects()[j], *from)
                            ==> current_dist <= spec_hit_dist2(
                            *from,
                            spec_sphere_hit_result(self.spec_objects()[j], *from),
                        )
                    &&& forall|j: int|
                        0 <= j < best_i && sphere_hits(#[trigger] self.spec_objects()[j], *from)
                            ==> current_dist < spec_hit_dist2(
                            *from,
                            spec_sphere_hit_result(self.spec_objects()[j], *from),
                        )
                },
        {
            let hittable = &self.objects[k];
            if let Some(new_hit) = hittable.hit(from) {
                let new_dist = hit_dist2(from, &new_hit);
                match &current_hit_candidate {
                    Some(_) => {
                        if new_dist < current_dist {
                            current_hit_candidate = Some(new_hit);
                            current_dist = new_dist;
                            proof {
                                best_i = k as int;
                            }
                        }
                    },
                    None => {
                        current_hit_candidate = Some(new_hit);
                        current_dist = new_dist;
                        proof {
                            best_i = k as int;
                        }
                    },
                }
            }
        }
        current_hit_candidate
    }
}

impl Hit for Scene {
    open spec fn spec_hits(&self, from: Ray) -> bool {
        exists|i: int|
            0 <= i < self.spec_objects().len() && sphere_hits(
                #[trigger] self.spec_objects()[i],
                from,
            )
    }

    open spec fn spec_hit_result(&self, from: Ray) -> MaterialHit {
        choose|h: MaterialHit| scene_hit_found(*self, from, h)
    }

    fn hit(&self, from: &Ray) -> (r: Option<MaterialHit>) {
        let r = Scene::hit(self, from);
        proof {
            if let Some(h) = r {
                assert(scene_hit_found(*self, *from, h));
                let w = choose|hh: MaterialHit| scene_hit_found(*self, *from, hh);
                lemma_scene_hit_found_unique(*self, *from, h, w);
            }
        }
        r
    }
}

/// Squared distance from the ray origin to the recorded intersection point.
fn hit_dist2(from: &Ray, h: &MaterialHit) -> (r: i128)
    requires
        in_range(from.spec_origin(), COORD_LIMIT as int),
        in_range(h.intersected_surface_normal.spec_origin(), HIT_POINT_LIMIT as int),
    ensures
        r == spec_hit_dist2(*from, *h),
{
    let p = h.intersected_surface_normal.get_origin();
    let o = from.get_origin();
    let d = Vec3(p.0 - o.0, p.1 - o.1, p.2 - o.2);
    dot_wide(d, d)
}

} // verus!
