//! Sphere intersection and the scene aggregate, on scenes whose quadratic
//! works out exactly in fixed point.

use raytracer::color::hit_sphere;
use raytracer::color::hit_sphere_5;
use raytracer::fixed::SCALE;
use raytracer::material::Lambertian;
use raytracer::material::Material;
use raytracer::ray::Ray;
use raytracer::ray::T_MAX;
use raytracer::renderable::Renderable;
use raytracer::renderable::Sphere;
use raytracer::vector::Vec3;

const S: i128 = SCALE;

fn gray() -> Material {
    Material::Lambertian(Lambertian::new(Vec3::new(S / 2, S / 2, S / 2)))
}

/// A ray aimed straight at the center from outside hits at
/// `distance_to_center - radius`, with the normal pointing outward.
#[test]
fn test_head_on_hit() {
    let sphere = Sphere::new(Vec3::new(0, 0, -2 * S), S, gray());
    let ray = Ray::new(Vec3::new(0, 0, 0), Vec3::new(0, 0, -S));
    let hit = sphere.hit(&ray, 0, T_MAX).expect("head-on ray must hit");
    // distance 2 minus radius 1.
    assert_eq!(hit.t, S);
    assert_eq!(hit.position, Vec3::new(0, 0, -S));
    // Outward: away from the center, back toward the ray origin.
    assert_eq!(hit.normal, Vec3::new(0, 0, S));
}

/// A ray whose perpendicular offset exceeds the radius misses.
#[test]
fn test_miss_returns_absent() {
    let sphere = Sphere::new(Vec3::new(0, 0, -2 * S), S, gray());
    let ray = Ray::new(Vec3::new(0, 3 * S, 0), Vec3::new(0, 0, -S));
    assert!(sphere.hit(&ray, 0, T_MAX).is_none());
}

/// The window bounds are inclusive and respected.
#[test]
fn test_window_excludes_hit() {
    let sphere = Sphere::new(Vec3::new(0, 0, -2 * S), S, gray());
    let ray = Ray::new(Vec3::new(0, 0, 0), Vec3::new(0, 0, -S));
    // Nearer root at t = 1, farther at t = 3.
    assert_eq!(sphere.hit(&ray, 0, S).expect("boundary included").t, S);
    assert_eq!(sphere.hit(&ray, 2 * S, T_MAX).expect("farther root").t, 3 * S);
    assert!(sphere.hit(&ray, S + 1, 3 * S - 1, ).is_none());
}

/// The aggregate reports the nearest of two hits along one ray, whichever
/// order the members come in.
#[test]
fn test_scene_nearest_of_two() {
    let near = Sphere::new(Vec3::new(0, 0, -4 * S), S, gray());
    let far = Sphere::new(Vec3::new(0, 0, -8 * S), S, gray());
    let ray = Ray::new(Vec3::new(0, 0, 0), Vec3::new(0, 0, -S));

    let t_near = near.hit(&ray, 0, T_MAX).expect("near sphere hit").t;
    let t_far = far.hit(&ray, 0, T_MAX).expect("far sphere hit").t;
    assert_eq!(t_near, 3 * S);
    assert_eq!(t_far, 7 * S);

    let world_a: Vec<Sphere> = vec![near, far];
    let world_b: Vec<Sphere> = vec![far, near];
    let ta = world_a.hit(&ray, 0, T_MAX).expect("aggregate hit").t;
    let tb = world_b.hit(&ray, 0, T_MAX).expect("aggregate hit").t;
    assert_eq!(ta, t_near.min(t_far));
    assert_eq!(tb, t_near.min(t_far));
}

/// An empty aggregate never hits.
#[test]
fn test_scene_empty_absent() {
    let world: Vec<Sphere> = Vec::new();
    let ray = Ray::new(Vec3::new(0, 0, 0), Vec3::new(0, 0, -S));
    assert!(world.hit(&ray, 0, T_MAX).is_none());
}

/// The silhouette test: crossing line against clean miss.
#[test]
fn test_hit_sphere_silhouette() {
    let center = Vec3::new(0, 0, -2 * S);
    let toward = Ray::new(Vec3::new(0, 0, 0), Vec3::new(0, 0, -S));
    let offside = Ray::new(Vec3::new(0, 3 * S, 0), Vec3::new(0, 0, -S));
    assert!(hit_sphere(&center, S, &toward));
    assert!(!hit_sphere(&center, S, &offside));
}

/// The early-chapter parameter helper: -1.0 on a miss, the nearer crossing
/// otherwise.
#[test]
fn test_hit_sphere_5_parameter() {
    let center = Vec3::new(0, 0, -2 * S);
    let toward = Ray::new(Vec3::new(0, 0, 0), Vec3::new(0, 0, -S));
    let offside = Ray::new(Vec3::new(0, 3 * S, 0), Vec3::new(0, 0, -S));
    assert_eq!(hit_sphere_5(&center, S, &toward), S);
    assert_eq!(hit_sphere_5(&center, S, &offside), -S);
}

/// Two coincident spheres tie: the reported parameter is still the common
/// nearest value, whichever member supplied the record.
#[test]
fn test_scene_tie_same_t() {
    let a = Sphere::new(Vec3::new(0, 0, -4 * S), S, gray());
    let b = Sphere::new(Vec3::new(0, 0, -4 * S), S, gray());
    let ray = Ray::new(Vec3::new(0, 0, 0), Vec3::new(0, 0, -S));
    let world: Vec<Sphere> = vec![a, b];
    assert_eq!(world.hit(&ray, 0, T_MAX).expect("tie still hits").t, 3 * S);
}
