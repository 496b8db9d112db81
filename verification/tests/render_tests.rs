use path_tracer::camera::{Camera, RenderError};
use path_tracer::colour::Colour;
use path_tracer::debugon::Debugon;
use path_tracer::dialectic::Dialectic;
use path_tracer::lambertian::Lambertian;
use path_tracer::material::Material;
use path_tracer::scene::Scene;
use path_tracer::sphere::Sphere;
use path_tracer::vec3::{Vec3, UNIT};

fn debug_scene() -> Scene {
    let mut scene = Scene::new();
    scene.add_object(Sphere::new(
        Vec3::new(0, 0, 0),
        UNIT,
        Material::Debugon(Debugon::new()),
    ));
    scene
}

fn debug_camera() -> Camera<Scene> {
    Camera::new(
        debug_scene(),
        Vec3::new(0, 0, -4 * UNIT),
        Vec3::new(0, UNIT, 0),
        Vec3::new(0, 0, UNIT),
    )
}

#[test]
fn can_render_basic() {
    let camera = debug_camera();
    let image = camera.render(200, 100, 90, 10, 10);

    assert_eq!(image.x_len(), 200);
    assert_eq!(image.y_len(), 100);
}

#[test]
fn can_render_regions() {
    let camera = debug_camera();
    // Top left.
    let image1 = camera
        .render_region((0, 0), (100, 50), 200, 100, 90, 10, 10)
        .unwrap();
    // Top right.
    let image2 = camera
        .render_region((100, 0), (100, 50), 200, 100, 90, 10, 10)
        .unwrap();
    // Bottom left.
    let image3 = camera
        .render_region((0, 50), (100, 50), 200, 100, 90, 10, 10)
        .unwrap();
    // Bottom right.
    let image4 = camera
        .render_region((100, 50), (100, 50), 200, 100, 90, 10, 10)
        .unwrap();

    assert_eq!(image1.x_len(), 100);
    assert_eq!(image1.y_len(), 50);

    assert_eq!(image2.x_len(), 100);
    assert_eq!(image2.y_len(), 50);

    assert_eq!(image3.x_len(), 100);
    assert_eq!(image3.y_len(), 50);

    assert_eq!(image4.x_len(), 100);
    assert_eq!(image4.y_len(), 50);
}

#[test]
fn test_invalid_region_error() {
    let camera = debug_camera();
    let result = camera.render_region((0, 0), (801, 600), 800, 600, 90, 2, 1);
    match result {
        Ok(_) => panic!("the out-of-frame region must be rejected"),
        Err(e) => assert_eq!(
            e,
            RenderError::InvalidRegion {
                region: ((0, 0), (801, 600)),
                size: (800, 600),
            }
        ),
    }
}

#[test]
fn test_region_stitch_matches_full() {
    // Rendering the frame in one call and in four disjoint quadrants with
    // the same seed gives exactly the same pixels, because each pixel
    // sample's generator is derived from the seed and the pixel's absolute
    // position alone.
    let mut scene = Scene::new();
    scene.add_object(Sphere::new(
        Vec3::new(0, 0, 0),
        UNIT,
        Material::Debugon(Debugon::new()),
    ));
    scene.add_object(Sphere::new(
        Vec3::new(0, -12 * UNIT, 0),
        10 * UNIT,
        Material::Lambertian(Lambertian::new(Colour::new(UNIT / 2, UNIT / 2, UNIT / 2))),
    ));
    scene.add_object(Sphere::new(
        Vec3::new(2 * UNIT, 0, 0),
        UNIT,
        Material::Dialectic(Dialectic::new(1_700_000)),
    ));
    let camera = Camera::new_looking_at(
        scene,
        Vec3::new(10 * UNIT, 2 * UNIT, 3 * UNIT),
        Vec3::new(0, UNIT, 0),
        Vec3::new(0, 0, 0),
    );
    let seed: u64 = 7;
    let (w, h) = (16usize, 12usize);
    let full = camera
        .render_region_seeded((0, 0), (w, h), w, h, 60, 3, 2, seed)
        .unwrap();
    let quads = [
        ((0usize, 0usize), (8usize, 6usize)),
        ((8, 0), (8, 6)),
        ((0, 6), (8, 6)),
        ((8, 6), (8, 6)),
    ];
    for (tl, size) in quads {
        let part = camera
            .render_region_seeded(tl, size, w, h, 60, 3, 2, seed)
            .unwrap();
        assert_eq!(part.x_len(), size.0);
        assert_eq!(part.y_len(), size.1);
        for y in 0..size.1 {
            for x in 0..size.0 {
                assert_eq!(
                    part.get(x, y),
                    full.get(tl.0 + x, tl.1 + y),
                    "pixel mismatch at quadrant {:?} ({}, {})",
                    tl,
                    x,
                    y
                );
            }
        }
    }
}

#[test]
fn test_camera_basis_orthonormal() {
    // The constructed basis is pairwise orthogonal and unit length up to
    // fixed-point rounding, and forward points at the look-at target.
    let camera = debug_basis_camera();
    let up = camera.get_up();
    let right = camera.get_right();
    let forward = camera.get_forward();

    let tol: i64 = 10_000_000;  // at the UNIT^2 scale of these dot products
    assert!(up.dot(right).abs() <= tol);
    assert!(up.dot(forward).abs() <= tol);
    assert!(right.dot(forward).abs() <= tol);
    assert!((up.dot(up) - UNIT * UNIT).abs() <= tol);
    assert!((right.dot(right) - UNIT * UNIT).abs() <= tol);
    assert!((forward.dot(forward) - UNIT * UNIT).abs() <= tol);

    let expected = Vec3::new(-10 * UNIT, -2 * UNIT, -3 * UNIT).normalised();
    let d = forward.sub(expected);
    assert!(d.0.abs() <= 20_000 && d.1.abs() <= 20_000 && d.2.abs() <= 20_000);
}

fn debug_basis_camera() -> Camera<Scene> {
    Camera::new_looking_at(
        debug_scene(),
        Vec3::new(10 * UNIT, 2 * UNIT, 3 * UNIT),
        Vec3::new(0, UNIT, 0),
        Vec3::new(0, 0, 0),
    )
}

#[test]
fn test_zero_samples_renders_black() {
    let camera = debug_camera();
    let image = camera.render(8, 6, 90, 3, 0);
    assert_eq!(image.x_len(), 8);
    assert_eq!(image.y_len(), 6);
    for y in 0..6 {
        for x in 0..8 {
            assert_eq!(image.get(x, y), Vec3::new(0, 0, 0));
        }
    }
}

#[test]
fn test_empty_scene_sky_blue() {
    // Every ray escapes an empty scene, so every pixel is a sky-gradient
    // colour; the sky's blue channel is one for every direction, so the
    // blue byte is 255 everywhere (this is also stated in the render
    // contract).
    let camera = Camera::new(
        Scene::new(),
        Vec3::new(0, 0, 0),
        Vec3::new(0, UNIT, 0),
        Vec3::new(0, 0, UNIT),
    );
    let image = camera.render(6, 4, 90, 4, 3);
    for y in 0..4 {
        for x in 0..6 {
            assert_eq!(image.get(x, y).2, 255);
        }
    }
}
