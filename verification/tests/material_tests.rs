use path_tracer::colour::Colour;
use path_tracer::debugon::Debugon;
use path_tracer::dialectic::Dialectic;
use path_tracer::lambertian::Lambertian;
use path_tracer::material::{random_unit_vector_in_sphere, Material};
use path_tracer::metal::Metal;
use path_tracer::ray::Ray;
use path_tracer::vec3::{Vec3, MIN_UNIT_DOT, UNIT};
use rand::rngs::SmallRng;
use rand::Rng;
use rand::SeedableRng;

#[test]
fn test_reflected_ray() {
    let metal = Metal::new(Colour::new(UNIT, UNIT, UNIT), UNIT);
    // We expect that the angle of incidence == angle of reflectance.
    let normal = Ray::new(Vec3::new(0, 0, 0), Vec3::new(0, UNIT, 0).normalised());
    let mut rng = SmallRng::seed_from_u64(20);

    for _ in 0..500 {
        // Set up an incident ray.
        let incident_ray_direction = Vec3::new(
            rng.gen_range(-UNIT..=UNIT),
            rng.gen_range(-UNIT..=UNIT),
            rng.gen_range(-UNIT..=UNIT),
        );
        if incident_ray_direction.dot(incident_ray_direction) < MIN_UNIT_DOT {
            continue;
        }
        let incident_ray_origin = incident_ray_direction.neg();

        let incident_ray = Ray::new(incident_ray_origin, incident_ray_direction.normalised());

        let cos_incident_angle = incident_ray
            .get_direction()
            .neg()
            .normalised()
            .dot(normal.get_direction().normalised());

        // Now, send a ray to bounce off the metal.
        let reflected_ray = metal.sample_gathering_ray(&incident_ray, &normal);
        let cos_reflected_ray = reflected_ray
            .get_direction()
            .normalised()
            .dot(normal.get_direction().normalised());

        // The two cosines agree up to fixed-point rounding (they are at the
        // scale of UNIT squared).
        let diff = cos_incident_angle - cos_reflected_ray;
        assert!(diff.abs() <= 100_000_000, "cosines differ: {}", diff);
    }
}

#[test]
fn test_metal_mirror_axis() {
    // Reflecting (1, -1, 0) off a floor with normal (0, 1, 0) gives
    // (1, 1, 0), exactly, because the arithmetic divides evenly.
    let metal = Metal::new(Colour::new(UNIT, UNIT, UNIT), 0);
    let normal = Ray::new(Vec3::new(0, 0, 0), Vec3::new(0, UNIT, 0));
    let incident = Ray::new(Vec3::new(-UNIT, UNIT, 0), Vec3::new(UNIT, -UNIT, 0).normalised());
    let reflected = metal.sample_gathering_ray(&incident, &normal);
    assert_eq!(*reflected.get_origin(), Vec3::new(0, 0, 0));
    let d = *reflected.get_direction();
    let i = *incident.get_direction();
    assert_eq!(d.0, i.0);
    assert_eq!(d.1, -i.1);
    assert_eq!(d.2, 0);
}

#[test]
fn test_attenuation_channels() {
    // Lambertian and Metal attenuate channel-wise by their base colour.
    let start = Colour::new(UNIT, UNIT / 2, UNIT / 4);
    let base = Colour::new(UNIT / 2, UNIT / 2, UNIT);
    let normal = Ray::new(Vec3::new(0, 0, 0), Vec3::new(0, UNIT, 0));

    let lambertian = Material::Lambertian(Lambertian::new(base));
    let c = lambertian.colour(start, &normal, 0);
    assert_eq!(c.get_red(), UNIT / 2);
    assert_eq!(c.get_green(), UNIT / 4);
    assert_eq!(c.get_blue(), UNIT / 4);

    let metal = Material::Metal(Metal::new(base, 0));
    let c = metal.colour(start, &normal, 0);
    assert_eq!(c.get_red(), UNIT / 2);
    assert_eq!(c.get_green(), UNIT / 4);
    assert_eq!(c.get_blue(), UNIT / 4);
}

#[test]
fn test_dialectic_colour_is_identity() {
    let glass = Dialectic::new(1_700_000);
    let start = Colour::new(123_456, 654_321, 999_999);
    let normal = Ray::new(Vec3::new(0, 0, 0), Vec3::new(0, UNIT, 0));
    let c = glass.colour(start, &normal, 0);
    assert_eq!(c.get_red(), 123_456);
    assert_eq!(c.get_green(), 654_321);
    assert_eq!(c.get_blue(), 999_999);
}

#[test]
fn test_dialectic_head_on_passes_through() {
    // A ray hitting the surface head-on refracts without bending.
    let glass = Dialectic::new(1_700_000);
    let normal = Ray::new(Vec3::new(0, 0, 0), Vec3::new(0, UNIT, 0));
    let incident = Ray::new(Vec3::new(0, 2 * UNIT, 0), Vec3::new(0, -UNIT, 0));
    let refracted = glass.sample_gathering_ray(&incident, &normal);
    assert_eq!(*refracted.get_origin(), Vec3::new(0, 0, 0));
    assert_eq!(*refracted.get_direction(), Vec3::new(0, -UNIT, 0));
}

#[test]
fn test_dialectic_snell_grazing() {
    // Entering glass of index 2 at grazing incidence (uv perpendicular to
    // the normal): Snell's vector form gives (0.5, -0.866, 0), and the
    // fixed-point arithmetic lands within one millionth of it.
    let glass = Dialectic::new(2_000_000);
    let normal = Ray::new(Vec3::new(0, 0, 0), Vec3::new(0, UNIT, 0));
    let incident = Ray::new(Vec3::new(-2 * UNIT, 0, 0), Vec3::new(UNIT, 0, 0));
    let refracted = glass.sample_gathering_ray(&incident, &normal);
    assert_eq!(*refracted.get_origin(), Vec3::new(0, 0, 0));
    assert_eq!(*refracted.get_direction(), Vec3::new(500_000, -866_025, 0));
}

#[test]
fn test_dialectic_total_internal_reflection() {
    // Leaving into a less dense medium (index 0.5) at grazing incidence:
    // the discriminant is negative, and the incoming ray comes back
    // unchanged.
    let glass = Dialectic::new(500_000);
    let normal = Ray::new(Vec3::new(0, 0, 0), Vec3::new(0, UNIT, 0));
    let incident = Ray::new(Vec3::new(-2 * UNIT, 0, 0), Vec3::new(UNIT, 0, 0));
    let out = glass.sample_gathering_ray(&incident, &normal);
    assert_eq!(*out.get_origin(), *incident.get_origin());
    assert_eq!(*out.get_direction(), *incident.get_direction());
}

#[test]
fn test_debugon_returns_normal() {
    let debugon = Debugon::new();
    let normal = Ray::new(Vec3::new(UNIT, 0, 0), Vec3::new(0, UNIT, 0));
    let incident = Ray::new(Vec3::new(0, 0, 0), Vec3::new(UNIT, 0, 0));
    let r = debugon.sample_gathering_ray(&incident, &normal);
    assert_eq!(*r.get_origin(), *normal.get_origin());
    assert_eq!(*r.get_direction(), *normal.get_direction());
}

#[test]
fn test_debugon_colour_maps_normal() {
    // (n + 1) / 2 per channel: a +y normal is (0.5, 1, 0.5).
    let debugon = Debugon::new();
    let normal = Ray::new(Vec3::new(0, 0, 0), Vec3::new(0, UNIT, 0));
    let c = debugon.colour(Colour::new(0, 0, 0), &normal, 0);
    assert_eq!(c.get_red(), UNIT / 2);
    assert_eq!(c.get_green(), UNIT);
    assert_eq!(c.get_blue(), UNIT / 2);
}

#[test]
fn test_lambertian_scatters_from_surface() {
    let lambertian = Lambertian::new(Colour::new(UNIT, UNIT, UNIT));
    let normal = Ray::new(Vec3::new(3 * UNIT, 0, 0), Vec3::new(UNIT, 0, 0));
    let incident = Ray::new(Vec3::new(0, 0, 0), Vec3::new(UNIT, 0, 0));
    let mut rng = SmallRng::seed_from_u64(99);
    for _ in 0..100 {
        let r = lambertian.sample_gathering_ray(&incident, &normal, &mut rng);
        assert_eq!(*r.get_origin(), *normal.get_origin());
        let d = *r.get_direction();
        let len2 = d.dot(d);
        // A unit direction up to rounding.
        assert!(len2 >= MIN_UNIT_DOT);
        assert!(len2 <= 2 * UNIT * UNIT);
    }
}

#[test]
fn test_random_unit_vector_in_sphere() {
    let mut rng = SmallRng::seed_from_u64(5);
    for _ in 0..200 {
        let v = random_unit_vector_in_sphere(&mut rng);
        let len2 = v.dot(v);
        assert!(len2 >= MIN_UNIT_DOT);
        assert!(len2 <= 2 * UNIT * UNIT);
    }
}
