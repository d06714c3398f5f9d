//! Material scattering: the diffuse material never absorbs, the specular
//! one absorbs exactly when the fuzzed reflection points into the surface.

use raytracer::fixed::SCALE;
use raytracer::material::Lambertian;
use raytracer::material::Material;
use raytracer::material::Metal;
use raytracer::material::random_in_unit_sphere;
use raytracer::ray::Ray;
use raytracer::renderable::HitRecord;
use rand::rngs::StdRng;
use rand::SeedableRng;
use raytracer::vector::Vec3;

const S: i128 = SCALE;

fn outward_hit() -> HitRecord {
    HitRecord {
        t: S,
        position: Vec3::new(0, 0, -S),
        normal: Vec3::new(0, 0, S),
        material: Material::Lambertian(Lambertian::new(Vec3::new(S / 2, S / 2, S / 2))),
    }
}

/// Diffuse scattering always produces a result.
#[test]
fn test_lambertian_always_scatters() {
    let albedo = Vec3::new(13421772, 5033164, 5033164);
    let lambertian = Lambertian::new(albedo);
    let hit = outward_hit();
    let ray = Ray::new(Vec3::new(0, 0, 0), Vec3::new(0, 0, -S));
    let mut rng = StdRng::seed_from_u64(7);
    for _ in 0..100 {
        let scatter = lambertian.scatter(&ray, &hit, &mut rng);
        let record = scatter.expect("diffuse scatter is never absent");
        assert_eq!(record.attenuation, albedo);
        assert_eq!(record.scattered.origin(), hit.position);
    }
}

/// With a zero offset the diffuse outgoing direction is exactly the normal.
#[test]
fn test_lambertian_scatter_with_offset() {
    let lambertian = Lambertian::new(Vec3::new(S / 2, S / 2, S / 2));
    let hit = outward_hit();
    let record = lambertian.scatter_with(&hit, Vec3::new(0, 0, 0));
    assert_eq!(record.scattered.direction(), hit.normal);
    let shifted = lambertian.scatter_with(&hit, Vec3::new(S / 4, 0, 0));
    assert_eq!(shifted.scattered.direction(), Vec3::new(S / 4, 0, S));
}

/// A reflection leaving the surface scatters; the mirrored direction is
/// exact for a head-on ray.
#[test]
fn test_metal_scatter_reflects() {
    let metal = Metal::new(Vec3::new(13421772, 13421772, 13421772), 0);
    let hit = outward_hit();
    let ray = Ray::new(Vec3::new(0, 0, 0), Vec3::new(0, 0, -S));
    let record = metal
        .scatter_with(&ray, &hit, Vec3::new(0, 0, 0))
        .expect("outgoing reflection must scatter");
    assert_eq!(record.scattered.direction(), Vec3::new(0, 0, S));
    assert_eq!(record.scattered.origin(), hit.position);
}

/// A fuzzed reflection pointing into the surface is absorbed.
#[test]
fn test_metal_scatter_absent_into_surface() {
    let metal = Metal::new(Vec3::new(13421772, 13421772, 13421772), 0);
    let hit = outward_hit();
    // Leaving through the surface from inside: the reflection of an
    // outgoing ray points into the surface.
    let ray = Ray::new(Vec3::new(0, 0, -2 * S), Vec3::new(0, 0, S));
    assert!(metal.scatter_with(&ray, &hit, Vec3::new(0, 0, 0)).is_none());
}

/// The fuzz radius is clamped into the unit interval at construction.
#[test]
fn test_metal_fuzz_clamped() {
    assert_eq!(Metal::new(Vec3::new(0, 0, 0), 3 * S).fuzz, S);
    assert_eq!(Metal::new(Vec3::new(0, 0, 0), -S).fuzz, 0);
    assert_eq!(Metal::new(Vec3::new(0, 0, 0), S / 4).fuzz, S / 4);
}

/// The dispatching material forwards to the right variant.
#[test]
fn test_material_dispatch() {
    let hit = outward_hit();
    let ray = Ray::new(Vec3::new(0, 0, 0), Vec3::new(0, 0, -S));
    let mut rng = StdRng::seed_from_u64(11);
    let diffuse = Material::Lambertian(Lambertian::new(Vec3::new(S / 2, 0, 0)));
    let record = diffuse.scatter(&ray, &hit, &mut rng).expect("diffuse scatters");
    assert_eq!(record.attenuation, Vec3::new(S / 2, 0, 0));
    let mirror = Material::Metal(Metal::new(Vec3::new(S, S, S), 0));
    let reflected = mirror.scatter(&ray, &hit, &mut rng).expect("mirror scatters head-on");
    assert_eq!(reflected.scattered.direction(), Vec3::new(0, 0, S));
}

/// Rejection sampling stays inside the closed unit ball.
#[test]
fn test_random_in_unit_sphere_bounded() {
    let mut rng = StdRng::seed_from_u64(5);
    for _ in 0..200 {
        let v = random_in_unit_sphere(&mut rng);
        assert!(v.length_squared() <= S);
    }
}

/// With zero fuzz the metal outcome does not depend on the draw: the same
/// mirror reflection comes back from the sampling entry points too.
#[test]
fn test_metal_zero_fuzz_deterministic() {
    let metal = Metal::new(Vec3::new(S, S, S), 0);
    let hit = outward_hit();
    let toward = Ray::new(Vec3::new(0, 0, 0), Vec3::new(0, 0, -S));
    let inside_out = Ray::new(Vec3::new(0, 0, -2 * S), Vec3::new(0, 0, S));
    for seed in [1u64, 2, 3] {
        let mut rng = StdRng::seed_from_u64(seed);
        let record = metal
            .scatter(&toward, &hit, &mut rng)
            .expect("zero-fuzz mirror scatters head-on");
        assert_eq!(record.scattered.direction(), Vec3::new(0, 0, S));
        assert!(metal.scatter(&inside_out, &hit, &mut rng).is_none());

        let dispatched = Material::Metal(metal)
            .scatter(&toward, &hit, &mut rng)
            .expect("dispatch keeps the zero-fuzz promise");
        assert_eq!(dispatched.scattered.direction(), Vec3::new(0, 0, S));
    }
}
