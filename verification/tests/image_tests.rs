use path_tracer::cimage::{CImage, Pixel};
use path_tracer::image::Image;
use path_tracer::vec3::Vec3;

#[test]
fn test_serialise() {
    let mut im = Image::new(3, 2);
    im.set(0, 0, Vec3::new(255, 0, 0));
    im.set(1, 0, Vec3::new(0, 255, 0));
    im.set(2, 0, Vec3::new(0, 0, 255));
    im.set(0, 1, Vec3::new(255, 255, 0));
    im.set(1, 1, Vec3::new(255, 255, 255));
    im.set(2, 1, Vec3::new(0, 0, 0));

    assert_eq!(
        im.to_ppm(),
        r#"P3
3 2
255
255 0 0    0 255 0    0 0 255
255 255 0    255 255 255    0 0 0"#
    )
}

#[test]
fn test_image_dimensions_and_pixels() {
    let mut im = Image::new(4, 3);
    assert_eq!(im.x_len(), 4);
    assert_eq!(im.y_len(), 3);
    assert_eq!(im.get(2, 1), Vec3::new(0, 0, 0));
    im.set(2, 1, Vec3::new(9, 8, 7));
    assert_eq!(im.get(2, 1), Vec3::new(9, 8, 7));
    // Neighbours untouched.
    assert_eq!(im.get(1, 1), Vec3::new(0, 0, 0));
    assert_eq!(im.get(2, 0), Vec3::new(0, 0, 0));
}

#[test]
fn test_cimage_at() {
    let mut im = Image::new(2, 2);
    im.set(1, 0, Vec3::new(10, 20, 30));
    let c = CImage::new(im);
    assert_eq!(
        c.at(1, 0),
        Pixel { red: 10, green: 20, blue: 30 }
    );
    // Out of bounds yields black.
    assert_eq!(
        c.at(2, 0),
        Pixel { red: 0, green: 0, blue: 0 }
    );
    assert_eq!(
        c.at(0, 5),
        Pixel { red: 0, green: 0, blue: 0 }
    );
}
