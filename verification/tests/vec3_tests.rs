use path_tracer::vec3::{Vec3, UNIT};

#[test]
fn test_add() {
    let u = Vec3::new(1, 2, 3);
    let v = Vec3::new(4, 3, 2);

    assert_eq!(u.add(v), Vec3::new(5, 5, 5));
}

#[test]
fn test_dot() {
    let u = Vec3::new(1, 2, 3);
    let v = Vec3::new(4, 5, 6);

    assert_eq!(u.dot(v), 4 + 10 + 18);
}

#[test]
fn test_cross() {
    let i = Vec3::new(1, 0, 0);
    let j = Vec3::new(0, 1, 0);
    let k = Vec3::new(0, 0, 1);

    assert_eq!(i.cross(j), k);
    assert_eq!(j.cross(i), k.neg());

    assert_eq!(j.cross(k), i);
    assert_eq!(k.cross(j), i.neg());

    assert_eq!(k.cross(i), j);
    assert_eq!(i.cross(k), j.neg());
}

#[test]
fn test_length_exact() {
    // A 3-4-5 triangle in fixed point.
    let v = Vec3::new(3 * UNIT, 4 * UNIT, 0);
    assert_eq!(v.length(), 5 * UNIT);
}

#[test]
fn test_normalised_axis() {
    let v = Vec3::new(7 * UNIT, 0, 0);
    assert_eq!(v.normalised(), Vec3::new(UNIT, 0, 0));
    let w = Vec3::new(0, -9 * UNIT, 0);
    assert_eq!(w.normalised(), Vec3::new(0, -UNIT, 0));
}
