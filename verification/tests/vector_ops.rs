//! The vector kernel and ray, exercised on whole-unit values where the
//! fixed-point arithmetic is exact.

use raytracer::fixed::SCALE;
use raytracer::ray::Ray;
use raytracer::vector::Vec3;

const S: i128 = SCALE;

#[test]
fn test_add() {
    assert_eq!(
        Vec3::new(S, 2 * S, 3 * S).add(Vec3::new(4 * S, 5 * S, 6 * S)),
        Vec3::new(5 * S, 7 * S, 9 * S)
    );
}

#[test]
fn test_add_assign() {
    let mut first = Vec3::new(S, 2 * S, 3 * S);
    first = first.add(Vec3::new(4 * S, 5 * S, 6 * S));

    assert_eq!(first, Vec3::new(5 * S, 7 * S, 9 * S));
}

#[test]
fn test_sub() {
    assert_eq!(
        Vec3::new(S, 2 * S, 3 * S).sub(Vec3::new(4 * S, 5 * S, 2 * S)),
        Vec3::new(-3 * S, -3 * S, S)
    );
}

#[test]
fn test_sub_assign() {
    let mut first = Vec3::new(S, 2 * S, 3 * S);
    first = first.sub(Vec3::new(4 * S, 5 * S, 2 * S));

    assert_eq!(first, Vec3::new(-3 * S, -3 * S, S));
}

#[test]
fn test_mul() {
    assert_eq!(
        Vec3::new(S, 2 * S, 3 * S).scale(2 * S),
        Vec3::new(2 * S, 4 * S, 6 * S)
    );
}

#[test]
fn test_div() {
    assert_eq!(
        Vec3::new(S, 2 * S, 3 * S).div_scale(2 * S),
        Vec3::new(S / 2, S, S + S / 2)
    );
}

#[test]
fn test_idx() {
    let first = Vec3::new(S, 2 * S, 3 * S);
    assert_eq!(first.index(2), 3 * S);
}

#[test]
fn test_idx_mut() {
    let mut first = Vec3::new(S, 2 * S, 3 * S);
    first.set_index(2, -S);
    assert_eq!(first.index(2), -S);
}

#[test]
fn test_cross() {
    let first = Vec3::new(-S, 7 * S, 4 * S);
    let second = Vec3::new(-5 * S, 8 * S, 4 * S);
    let answer = Vec3::new(-4 * S, -16 * S, 27 * S);
    assert_eq!(first.cross(second), answer);
}

#[test]
fn test_unit() {
    let first = Vec3::new(-S, 7 * S, 4 * S);
    // 1e-6 of tolerance is about 16 raw units.
    let eps: i128 = 16;
    let len = first.unit_vector().length();
    assert!((S - len).abs() < eps);
}

#[test]
fn test_point_at_distance() {
    let origin = Vec3::new(S, 0, 0);
    let direction = Vec3::new(S, S, S);
    let ray = Ray::new(origin, direction);

    let answer = Vec3::new(4 * S, 3 * S, 3 * S);
    assert_eq!(ray.point_at_distance(3 * S), answer);
}

#[test]
fn test_dot_and_lengths() {
    let v = Vec3::new(S, 2 * S, 2 * S);
    assert_eq!(v.dot(v), 9 * S);
    assert_eq!(v.length_squared(), 9 * S);
    assert_eq!(v.length(), 3 * S);
    // Squared length of the normalized vector is one up to truncation.
    assert!((S - v.unit_vector().length_squared()).abs() < 16);
}

#[test]
fn test_accessors() {
    let v = Vec3::new(1, 2, 3);
    assert_eq!((v.x(), v.y(), v.z()), (1, 2, 3));
    assert_eq!((v.r(), v.g(), v.b()), (1, 2, 3));
    let w = v.mul(Vec3::new(S, S, S));
    assert_eq!(w, v);
    let q = Vec3::new(4 * S, 6 * S, 8 * S).div(Vec3::new(2 * S, 2 * S, 2 * S));
    assert_eq!(q, Vec3::new(2 * S, 3 * S, 4 * S));
}

#[test]
fn test_make_unit_vector() {
    let mut v = Vec3::new(0, 3 * S, 4 * S);
    v.make_unit_vector();
    assert_eq!(v.x(), 0);
    // 3/5 and 4/5 truncate in binary fixed point.
    assert_eq!(v.y(), 3 * S / 5);
    assert_eq!(v.z(), 4 * S / 5);
}
