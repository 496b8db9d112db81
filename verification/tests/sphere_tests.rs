use path_tracer::colour::Colour;
use path_tracer::lambertian::Lambertian;
use path_tracer::material::Material;
use path_tracer::ray::Ray;
use path_tracer::sphere::Sphere;
use path_tracer::vec3::{Vec3, UNIT};

fn red_sphere(x: i64, y: i64, z: i64, radius: i64) -> Sphere {
    Sphere::new(
        Vec3::new(x, y, z),
        radius,
        Material::Lambertian(Lambertian::new(Colour::new(900_000, 0, 0))),
    )
}

#[test]
fn sphere_test_hit_sphere() {
    // Have a sphere sat on the x axis, 5 units away.
    let unit_sphere = red_sphere(5 * UNIT, 0, 0, UNIT);

    // Cast a ray along the x axis. This should hit the center of the sphere.
    let ray = Ray::new(Vec3::new(0, 0, 0), Vec3::new(UNIT, 0, 0));

    unit_sphere.hit(&ray).expect("The ray should hit.");

    // Cast a ray along the y axis. This should not hit anything.
    let ray = Ray::new(Vec3::new(0, 0, 0), Vec3::new(0, UNIT, 0));
    if let Some(_) = unit_sphere.hit(&ray) {
        panic!("Test failed.");
    }
}

#[test]
fn test_inside_sphere_misses() {
    // A ray starting strictly inside the sphere reports no hit: the near
    // root is behind the origin, and the far root is discarded by design.
    let sphere = red_sphere(0, 0, 0, 2 * UNIT);
    let ray = Ray::new(Vec3::new(0, 0, 0), Vec3::new(UNIT, 0, 0));
    assert!(sphere.hit(&ray).is_none());

    let off_centre = Ray::new(Vec3::new(UNIT, 0, 0), Vec3::new(0, UNIT, 0));
    assert!(sphere.hit(&off_centre).is_none());
}

#[test]
fn test_hit_point_and_normal() {
    // Head-on hit: the intersection sits on the near surface and the
    // normal points straight back at the ray.
    let sphere = red_sphere(5 * UNIT, 0, 0, UNIT);
    let ray = Ray::new(Vec3::new(0, 0, 0), Vec3::new(UNIT, 0, 0));
    let hit = sphere.hit(&ray).expect("The ray should hit.");
    let normal = hit.intersected_surface_normal;
    assert_eq!(*normal.get_origin(), Vec3::new(4 * UNIT, 0, 0));
    assert_eq!(*normal.get_direction(), Vec3::new(-UNIT, 0, 0));
}
