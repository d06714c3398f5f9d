//! The color estimators and buffer producers: exact background values, the
//! bounce budget, quantization, and seeded determinism.

use raytracer::color::get_bg_color;
use raytracer::color::get_color_chapter_4;
use raytracer::color::get_color_chapter_5;
use raytracer::color::get_color_chapter_7;
use raytracer::color::ColorMode;
use raytracer::fixed::SCALE;
use raytracer::material::Lambertian;
use raytracer::material::Material;
use raytracer::material::Metal;
use raytracer::ray::Ray;
use raytracer::render::create_buffer;
use raytracer::render::create_ray_buffer;
use raytracer::render::create_ray_buffer_antialias;
use raytracer::render::create_world;
use raytracer::renderable::Sphere;
use raytracer::rgb::get_b;
use raytracer::rgb::get_g;
use raytracer::rgb::get_r;
use raytracer::rgb::to_u32_rgb;
use raytracer::rgb::gamma_2_correct;
use rand::rngs::StdRng;
use rand::SeedableRng;
use raytracer::vector::Vec3;

const S: i128 = SCALE;

fn empty_world() -> Vec<Sphere> {
    Vec::new()
}

/// The background of a straight-ahead ray: t = 1/2 between white and blue.
#[test]
fn test_bg_color_head_on() {
    let ray = Ray::new(Vec3::new(0, 0, 0), Vec3::new(0, 0, -S));
    let color = get_bg_color(&ray, &empty_world());
    assert_eq!(color, Vec3::new(12582912, 14260633, S));
}

/// Quantization clamps, scales by 255.99 and truncates; the bytes unpack
/// to exactly what was packed.
#[test]
fn test_quantize_and_unpack() {
    let packed = to_u32_rgb(&Vec3::new(-S, 2 * S, S / 2));
    assert_eq!(packed, (0 << 16) | (255 << 8) | 127);
    assert_eq!(get_r(packed), 0);
    assert_eq!(get_g(packed), 255);
    assert_eq!(get_b(packed), 127);
    // floor(255.99 * 1.0) = 255, floor(255.99 * 0.2) = 51.
    assert_eq!(to_u32_rgb(&Vec3::new(S, 0, 3355443)), (255 << 16) | 51);
}

/// Gamma correction is the per-channel square root.
#[test]
fn test_gamma_2_correct() {
    let quarter = S / 4;
    let corrected = gamma_2_correct(&Vec3::new(quarter, S, 0));
    assert_eq!(corrected, Vec3::new(S / 2, S, 0));
}

/// The gradient test card, 2 by 2, written top row first.
#[test]
fn test_create_buffer_small() {
    let buffer = create_buffer(2, 2);
    assert_eq!(buffer, vec![32563, 8355635, 51, 8323123]);
}

/// An empty scene renders the pure background gradient; the four corner
/// rays of a 2-by-2 image give the hand-computed lerp values.
#[test]
fn test_background_render_2x2() {
    let mut rng = StdRng::seed_from_u64(1);
    let buffer = create_ray_buffer(2, 2, &empty_world(), ColorMode::Background, &mut rng);
    assert_eq!(buffer, vec![12573183, 12573183, 14346751, 15594751]);
}

/// The silhouette shader paints the demo sphere red in the middle of the
/// image and the background at the edge.
#[test]
fn test_silhouette_shader() {
    let toward = Ray::new(Vec3::new(0, 0, 0), Vec3::new(0, 0, -S));
    let away = Ray::new(Vec3::new(0, 3 * S, 0), Vec3::new(0, 0, -S));
    assert_eq!(get_color_chapter_4(&toward, &empty_world()), Vec3::new(S, 0, 0));
    assert_eq!(
        get_color_chapter_4(&away, &empty_world()),
        get_bg_color(&away, &empty_world())
    );
}

/// The normal-map shader shifts the head-on normal to (1/2, 1/2, 1).
#[test]
fn test_normal_shader_head_on() {
    let world: Vec<Sphere> = vec![Sphere::new(
        Vec3::new(0, 0, -2 * S),
        S,
        Material::Lambertian(Lambertian::new(Vec3::new(S / 2, S / 2, S / 2))),
    )];
    let ray = Ray::new(Vec3::new(0, 0, 0), Vec3::new(0, 0, -S));
    let color = get_color_chapter_5(&ray, &world);
    assert_eq!(color, Vec3::new(S / 2, S / 2, S));
}

/// With no scene the estimator returns the background; between two facing
/// mirrors it exhausts the bounce budget and returns black.
#[test]
fn test_estimator_background_and_mirror_pair() {
    let ray = Ray::new(Vec3::new(0, 0, 0), Vec3::new(0, 0, -S));

    let mut rng = StdRng::seed_from_u64(3);
    let open_sky = get_color_chapter_7(&ray, &empty_world(), &mut rng);
    assert_eq!(open_sky, get_bg_color(&ray, &empty_world()));

    let mirror = |z: i128| {
        Sphere::new(
            Vec3::new(0, 0, z),
            S,
            Material::Metal(Metal::new(Vec3::new(S, S, S), 0)),
        )
    };
    let trap: Vec<Sphere> = vec![mirror(-2 * S), mirror(2 * S)];
    let absorbed = get_color_chapter_7(&ray, &trap, &mut rng);
    assert_eq!(absorbed, Vec3::new(0, 0, 0));
}

/// A diffuse sphere over a ground sphere stays within the unit brightness
/// of the unlit background.
#[test]
fn test_estimator_brightness_bounded() {
    let world = create_world();
    let mut rng = StdRng::seed_from_u64(9);
    for k in 0i128..16 {
        let dx = (k - 8) * S / 8;
        let ray = Ray::new(Vec3::new(0, 0, 0), Vec3::new(dx, S / 4, -S));
        let color = get_color_chapter_7(&ray, &world, &mut rng);
        assert!(0 <= color.x() && color.x() <= S);
        assert!(0 <= color.y() && color.y() <= S);
        assert!(0 <= color.z() && color.z() <= S);
    }
}

/// With one sample per pixel and the same seed, two renders of the same
/// scene are identical, pixel for pixel.
#[test]
fn test_deterministic_with_seed() {
    let world = create_world();
    let mut rng1 = StdRng::seed_from_u64(42);
    let mut rng2 = StdRng::seed_from_u64(42);
    let first = create_ray_buffer_antialias(8, 4, &world, ColorMode::Scatter, 1, &mut rng1);
    let second = create_ray_buffer_antialias(8, 4, &world, ColorMode::Scatter, 1, &mut rng2);
    assert_eq!(first.len(), 32);
    assert_eq!(first, second);
}

/// The demo scene builds exactly its four spheres.
#[test]
fn test_create_world_shape() {
    let world = create_world();
    assert_eq!(world.len(), 4);
    assert_eq!(world[0].radius, S / 2);
    assert_eq!(world[1].radius, 100 * S);
    assert_eq!(world[0].center, Vec3::new(0, 0, -S));
    assert_eq!(world[1].center, Vec3::new(0, -1686110208, -S));
    assert_eq!(world[2].center, Vec3::new(S, 0, -S));
    assert_eq!(world[3].center, Vec3::new(-S, 0, -S));
    match world[2].material {
        Material::Metal(m) => assert_eq!(m.fuzz, 0),
        _ => panic!("third sphere is metal"),
    }
}

/// Degenerate image sizes produce empty buffers.
#[test]
fn test_empty_buffer_sizes() {
    assert_eq!(create_buffer(0, 7), vec![]);
    assert_eq!(create_buffer(7, 0), vec![]);
}
